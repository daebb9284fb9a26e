//! Tokens: what the lexemes of a source text stand for.
use regex::Regex;
use vstd::prelude::*;
use vstd::string::StrSliceExecFns;
use crate::errors::CreateError;
use crate::errors::ErrorView;
use crate::errors::FORMAT;
use crate::instructions::BinaryKind;
use crate::instructions::BinaryOp;
use crate::instructions::Instruction;
use crate::instructions::UnaryKind;
use crate::instructions::UnaryOp;
use crate::model::CreateType;
use crate::model::Identifier;
use crate::model::Path;
use crate::model::path_view;
use crate::scalar::Buffer;
use crate::scalar::PI;
use crate::scalar::from_count;
use crate::scalar::spec_from_count;
use crate::utils::decimal;
use crate::utils::is_whitespace;
use crate::utils::parse_index;
use crate::utils::piece;
use crate::utils::read_char;
use crate::utils::rest;
use crate::utils::spec_decimal;
use crate::utils::spec_expected_char;
use crate::utils::spec_is_whitespace;
use crate::utils::spec_parse_index;
use crate::utils::spec_read_char;
use crate::utils::string_of;
use crate::utils::to_chars;

verus! {

/// One token of a program.
#[derive(Debug)]
pub enum Token {
    CMD(Command),
    NUM(Buffer),
    SPC(Special),
    CFL(ControlFlow),
    TYP(CreateType),
}

/// The commands: every one becomes an instruction.
#[derive(Clone, Copy, Debug)]
pub enum Command {
    ADD,
    SUB,
    MUL,
    DIV,
    MOD,
    POW,
    SIN,
    COS,
    TAN,
    ASN,
    ACS,
    ATN,
    SQT,
    CBT,
    EQU,
    NOT,
    GTH,
    LTH,
    ORR,
    AND,
    PNT,
    PTC,
}

/// Reads, binders and brackets.
#[derive(Debug)]
pub enum Special {
    /// `;` drops the front of the operand stack.
    RMB(),
    /// `~` reads the front of the operand stack.
    BUF(),
    /// `~N` reads the operand stack at a position.
    IBF(usize),
    /// `=name` binds a scalar.
    SNB(Identifier),
    /// `=[]name` binds an array.
    SNA(Identifier),
    /// `=||name` binds a scope.
    SNS(Identifier),
    /// `=()name` binds a function.
    SNF(Identifier),
    /// `g=name` binds a scalar in the root frame.
    SGB(Identifier),
    /// `g=[]name` binds an array in the root frame.
    SGA(Identifier),
    /// `l=name` binds a scalar in the current frame.
    SLB(Identifier),
    /// `l=[]name` binds an array in the current frame.
    SLA(Identifier),
    /// `~name[` opens an indexed read.
    GIA(Identifier),
    /// `~name` reads a named value.
    GNB(Identifier),
    /// `~name(` opens a call.
    FNC(Identifier),
    /// `{`
    OPB(),
    /// `}`
    CLB(),
    /// `[`
    OPS(),
    /// `]`
    CLS(),
    /// `(`
    OPR(),
    /// `)`
    CLR(),
    /// `|`
    PIP(),
}

/// The control-flow keywords.
#[derive(Clone, Copy, Debug)]
pub enum ControlFlow {
    IFF,
    ELS,
    FOR,
    FRN,
    WHL,
    BRK,
    RTN,
}

impl Command {
    /// The empty writer that a command pushes.
    pub open spec fn spec_instruction(self) -> Instruction {
        match self {
            Command::ADD => Instruction::Binary(BinaryOp { left: None, right: None, op: BinaryKind::Add }),
            Command::SUB => Instruction::Binary(BinaryOp { left: None, right: None, op: BinaryKind::Sub }),
            Command::MUL => Instruction::Binary(BinaryOp { left: None, right: None, op: BinaryKind::Mul }),
            Command::DIV => Instruction::Binary(BinaryOp { left: None, right: None, op: BinaryKind::Div }),
            Command::MOD => Instruction::Binary(BinaryOp { left: None, right: None, op: BinaryKind::Rem }),
            Command::POW => Instruction::Binary(BinaryOp { left: None, right: None, op: BinaryKind::Pow }),
            Command::EQU => Instruction::Binary(BinaryOp { left: None, right: None, op: BinaryKind::Equal }),
            Command::GTH => Instruction::Binary(
                BinaryOp { left: None, right: None, op: BinaryKind::Greater },
            ),
            Command::LTH => Instruction::Binary(BinaryOp { left: None, right: None, op: BinaryKind::Less }),
            Command::ORR => Instruction::Binary(BinaryOp { left: None, right: None, op: BinaryKind::Or }),
            Command::AND => Instruction::Binary(BinaryOp { left: None, right: None, op: BinaryKind::And }),
            Command::SIN => Instruction::Unary(UnaryOp { value: None, op: UnaryKind::Sin }),
            Command::COS => Instruction::Unary(UnaryOp { value: None, op: UnaryKind::Cos }),
            Command::TAN => Instruction::Unary(UnaryOp { value: None, op: UnaryKind::Tan }),
            Command::ASN => Instruction::Unary(UnaryOp { value: None, op: UnaryKind::Asin }),
            Command::ACS => Instruction::Unary(UnaryOp { value: None, op: UnaryKind::Acos }),
            Command::ATN => Instruction::Unary(UnaryOp { value: None, op: UnaryKind::Atan }),
            Command::SQT => Instruction::Unary(UnaryOp { value: None, op: UnaryKind::Sqrt }),
            Command::CBT => Instruction::Unary(UnaryOp { value: None, op: UnaryKind::Cbrt }),
            Command::NOT => Instruction::Unary(UnaryOp { value: None, op: UnaryKind::Not }),
            Command::PNT => Instruction::Unary(UnaryOp { value: None, op: UnaryKind::PrintNumber }),
            Command::PTC => Instruction::Unary(UnaryOp { value: None, op: UnaryKind::PrintChar }),
        }
    }

    /// The empty writer that the command pushes.
    pub fn instruction(self) -> (out: Instruction)
        ensures
            out == self.spec_instruction(),
    {
        match self {
            Command::ADD => Instruction::Binary(BinaryOp::new(BinaryKind::Add)),
            Command::SUB => Instruction::Binary(BinaryOp::new(BinaryKind::Sub)),
            Command::MUL => Instruction::Binary(BinaryOp::new(BinaryKind::Mul)),
            Command::DIV => Instruction::Binary(BinaryOp::new(BinaryKind::Div)),
            Command::MOD => Instruction::Binary(BinaryOp::new(BinaryKind::Rem)),
            Command::POW => Instruction::Binary(BinaryOp::new(BinaryKind::Pow)),
            Command::EQU => Instruction::Binary(BinaryOp::new(BinaryKind::Equal)),
            Command::GTH => Instruction::Binary(BinaryOp::new(BinaryKind::Greater)),
            Command::LTH => Instruction::Binary(BinaryOp::new(BinaryKind::Less)),
            Command::ORR => Instruction::Binary(BinaryOp::new(BinaryKind::Or)),
            Command::AND => Instruction::Binary(BinaryOp::new(BinaryKind::And)),
            Command::SIN => Instruction::Unary(UnaryOp::new(UnaryKind::Sin)),
            Command::COS => Instruction::Unary(UnaryOp::new(UnaryKind::Cos)),
            Command::TAN => Instruction::Unary(UnaryOp::new(UnaryKind::Tan)),
            Command::ASN => Instruction::Unary(UnaryOp::new(UnaryKind::Asin)),
            Command::ACS => Instruction::Unary(UnaryOp::new(UnaryKind::Acos)),
            Command::ATN => Instruction::Unary(UnaryOp::new(UnaryKind::Atan)),
            Command::SQT => Instruction::Unary(UnaryOp::new(UnaryKind::Sqrt)),
            Command::CBT => Instruction::Unary(UnaryOp::new(UnaryKind::Cbrt)),
            Command::NOT => Instruction::Unary(UnaryOp::new(UnaryKind::Not)),
            Command::PNT => Instruction::Unary(UnaryOp::new(UnaryKind::PrintNumber)),
            Command::PTC => Instruction::Unary(UnaryOp::new(UnaryKind::PrintChar)),
        }
    }
}

/// One whitespace-delimited piece of a source text.
#[derive(Debug)]
pub struct Lexeme {
    pub text: String,
    /// The line of the lexeme, counted from zero.
    pub line: usize,
    /// The number of lexemes before it on its line.
    pub column: usize,
    /// The bit pattern of the number that the text denotes when read as a
    /// decimal floating-point literal, if it is one.  The library does not
    /// compute with floating-point numbers: splitting leaves the field empty
    /// and the caller fills it in.
    pub number: Option<Buffer>,
}

/// The model of a lexeme.
pub struct LexemeView {
    pub text: Seq<char>,
    pub line: usize,
    pub column: usize,
    pub number: Option<Buffer>,
}

impl View for Lexeme {
    type V = LexemeView;

    open spec fn view(&self) -> LexemeView {
        LexemeView { text: self.text@, line: self.line, column: self.column, number: self.number }
    }
}

/// The models of a list of lexemes.
pub open spec fn lexemes_view(s: Seq<Lexeme>) -> Seq<LexemeView> {
    Seq::new(s.len(), |i: int| s[i]@)
}

/// What a scan of the text has found: the finished lexemes, the characters of
/// the lexeme under way, and the position of that lexeme.
pub struct Scan {
    pub done: Seq<LexemeView>,
    pub current: Seq<char>,
    pub line: usize,
    pub column: usize,
}

impl Scan {
    /// The scan after the lexeme under way, if there is one, is finished.
    pub open spec fn flush(self) -> Scan {
        if self.current.len() > 0 {
            Scan {
                done: self.done.push(
                    LexemeView { text: self.current, line: self.line, column: self.column, number: None },
                ),
                current: Seq::empty(),
                line: self.line,
                column: (self.column + 1) as usize,
            }
        } else {
            self
        }
    }

    /// The scan after one more character: a line feed ends the lexeme and the
    /// line, other whitespace ends the lexeme, anything else belongs to it.
    pub open spec fn step(self, c: char) -> Scan {
        if c == '\n' {
            Scan { done: self.flush().done, current: Seq::empty(), line: (self.line + 1) as usize, column: 0 }
        } else if spec_is_whitespace(c) {
            self.flush()
        } else {
            Scan { done: self.done, current: self.current.push(c), line: self.line, column: self.column }
        }
    }
}

/// The scan of a text from its start.
pub open spec fn spec_scan(s: Seq<char>) -> Scan
    decreases s.len(),
{
    if s.len() == 0 {
        Scan { done: Seq::empty(), current: Seq::empty(), line: 0, column: 0 }
    } else {
        spec_scan(s.drop_last()).step(s.last())
    }
}

/// The lexemes of a text: its maximal runs of characters that are not
/// whitespace, each with its line and its place on that line.
pub open spec fn spec_split_lexemes(s: Seq<char>) -> Seq<LexemeView> {
    spec_scan(s).flush().done
}

/// Splits a source text into lexemes.
pub fn split_lexemes(data: &str) -> (out: Vec<Lexeme>)
    ensures
        lexemes_view(out@) == spec_split_lexemes(data@),
{
    let chars = to_chars(data);
    let mut out: Vec<Lexeme> = Vec::new();
    let mut start: usize = 0;
    let mut line: usize = 0;
    let mut column: usize = 0;
    let mut i: usize = 0;
    proof {
        assert(chars@.subrange(0, 0) =~= Seq::empty());
        assert(lexemes_view(out@) =~= Seq::empty());
    }
    while i < chars.len()
        invariant
            start <= i <= chars.len(),
            line <= i,
            column <= i,
            spec_scan(chars@.subrange(0, i as int)) == (Scan {
                done: lexemes_view(out@),
                current: chars@.subrange(start as int, i as int),
                line,
                column,
            }),
        decreases chars.len() - i,
    {
        let c = chars[i];
        let ghost before = lexemes_view(out@);
        proof {
            let next = chars@.subrange(0, i + 1);
            assert(next.drop_last() =~= chars@.subrange(0, i as int));
            assert(next.last() == c);
            assert(chars@.subrange(start as int, i + 1) =~= chars@.subrange(start as int, i as int).push(c));
            assert(chars@.subrange(i + 1, i + 1) =~= Seq::empty());
        }
        if is_whitespace(c) {
            if start < i {
                out.push(Lexeme { text: string_of(&chars, start, i), line, column, number: None });
                proof {
                    assert(lexemes_view(out@) =~= before.push(
                        LexemeView {
                            text: chars@.subrange(start as int, i as int),
                            line,
                            column,
                            number: None,
                        },
                    ));
                }
                column = column + 1;
            }
            if c == '\n' {
                line = line + 1;
                column = 0;
            }
            start = i + 1;
        }
        i = i + 1;
        proof {
            let scan = spec_scan(chars@.subrange(0, i as int));
            assert(chars@.subrange((i - 1) as int, (i - 1) as int) =~= Seq::empty());
            assert(scan.current =~= chars@.subrange(start as int, i as int));
            assert(scan.done =~= lexemes_view(out@));
        }
    }
    proof {
        assert(chars@.subrange(0, i as int) =~= chars@);
    }
    let ghost before = lexemes_view(out@);
    if start < i {
        out.push(Lexeme { text: string_of(&chars, start, i), line, column, number: None });
        proof {
            assert(lexemes_view(out@) =~= before.push(
                LexemeView { text: chars@.subrange(start as int, i as int), line, column, number: None },
            ));
        }
    }
    out
}

/// The forms of a lexeme that holds a dotted name.
#[derive(Clone, Copy, Debug)]
pub enum Shape {
    ReadNamed,
    ReadIndexed,
    Call,
    BindScalar,
    BindArray,
    BindFunction,
    BindScope,
    GlobalScalar,
    GlobalArray,
    LocalScalar,
    LocalArray,
}

/// The tokens without payload among the special ones.
#[derive(Clone, Copy, Debug)]
pub enum Mark {
    RemoveTop,
    ReadTop,
    OpenBlock,
    CloseBlock,
    OpenArray,
    CloseArray,
    OpenFunction,
    CloseRound,
    Pipe,
}

/// The model of a token.
pub enum TokenView {
    Command(Command),
    Number(Buffer),
    Type(CreateType),
    Flow(ControlFlow),
    Mark(Mark),
    ReadAt(usize),
    Named(Shape, Path),
}

impl View for Token {
    type V = TokenView;

    open spec fn view(&self) -> TokenView {
        match self {
            Token::CMD(c) => TokenView::Command(*c),
            Token::NUM(b) => TokenView::Number(*b),
            Token::TYP(t) => TokenView::Type(*t),
            Token::CFL(k) => TokenView::Flow(*k),
            Token::SPC(s) => match s {
                Special::RMB() => TokenView::Mark(Mark::RemoveTop),
                Special::BUF() => TokenView::Mark(Mark::ReadTop),
                Special::OPB() => TokenView::Mark(Mark::OpenBlock),
                Special::CLB() => TokenView::Mark(Mark::CloseBlock),
                Special::OPS() => TokenView::Mark(Mark::OpenArray),
                Special::CLS() => TokenView::Mark(Mark::CloseArray),
                Special::OPR() => TokenView::Mark(Mark::OpenFunction),
                Special::CLR() => TokenView::Mark(Mark::CloseRound),
                Special::PIP() => TokenView::Mark(Mark::Pipe),
                Special::IBF(i) => TokenView::ReadAt(*i),
                Special::GNB(n) => TokenView::Named(Shape::ReadNamed, path_view(n@)),
                Special::GIA(n) => TokenView::Named(Shape::ReadIndexed, path_view(n@)),
                Special::FNC(n) => TokenView::Named(Shape::Call, path_view(n@)),
                Special::SNB(n) => TokenView::Named(Shape::BindScalar, path_view(n@)),
                Special::SNA(n) => TokenView::Named(Shape::BindArray, path_view(n@)),
                Special::SNF(n) => TokenView::Named(Shape::BindFunction, path_view(n@)),
                Special::SNS(n) => TokenView::Named(Shape::BindScope, path_view(n@)),
                Special::SGB(n) => TokenView::Named(Shape::GlobalScalar, path_view(n@)),
                Special::SGA(n) => TokenView::Named(Shape::GlobalArray, path_view(n@)),
                Special::SLB(n) => TokenView::Named(Shape::LocalScalar, path_view(n@)),
                Special::SLA(n) => TokenView::Named(Shape::LocalArray, path_view(n@)),
            },
        }
    }
}

/// The models of a list of tokens.
pub open spec fn tokens_view(s: Seq<Token>) -> Seq<TokenView> {
    Seq::new(s.len(), |i: int| s[i]@)
}

impl Shape {
    /// The regular expression that a whole lexeme of this form matches: the
    /// sigil, a name of word characters with further names after dots, and
    /// for a read the bracket that opens an index or a call.
    pub open spec fn spec_pattern(self) -> Seq<char> {
        match self {
            Shape::ReadNamed => r"^~\w+(\.\w+)*$"@,
            Shape::ReadIndexed => r"^~\w+(\.\w+)*\[$"@,
            Shape::Call => r"^~\w+(\.\w+)*\($"@,
            Shape::BindScalar => r"^=\w+(\.\w+)*$"@,
            Shape::BindArray => r"^=\[\]\w+(\.\w+)*$"@,
            Shape::BindFunction => r"^=\(\)\w+(\.\w+)*$"@,
            Shape::BindScope => r"^=\|\|\w+(\.\w+)*$"@,
            Shape::GlobalScalar => r"^g=\w+(\.\w+)*$"@,
            Shape::GlobalArray => r"^g=\[\]\w+(\.\w+)*$"@,
            Shape::LocalScalar => r"^l=\w+(\.\w+)*$"@,
            Shape::LocalArray => r"^l=\[\]\w+(\.\w+)*$"@,
        }
    }

    /// The number of characters before the name.
    pub open spec fn spec_prefix(self) -> nat {
        match self {
            Shape::ReadNamed => 1,
            Shape::ReadIndexed => 1,
            Shape::Call => 1,
            Shape::BindScalar => 1,
            Shape::BindArray => 3,
            Shape::BindFunction => 3,
            Shape::BindScope => 3,
            Shape::GlobalScalar => 2,
            Shape::GlobalArray => 4,
            Shape::LocalScalar => 2,
            Shape::LocalArray => 4,
        }
    }

    /// The number of characters after the name.
    pub open spec fn spec_suffix(self) -> nat {
        match self {
            Shape::ReadIndexed => 1,
            Shape::Call => 1,
            _ => 0,
        }
    }

    /// The regular expression of the form.
    pub fn pattern(self) -> (out: &'static str)
        ensures
            out@ == self.spec_pattern(),
    {
        match self {
            Shape::ReadNamed => r"^~\w+(\.\w+)*$",
            Shape::ReadIndexed => r"^~\w+(\.\w+)*\[$",
            Shape::Call => r"^~\w+(\.\w+)*\($",
            Shape::BindScalar => r"^=\w+(\.\w+)*$",
            Shape::BindArray => r"^=\[\]\w+(\.\w+)*$",
            Shape::BindFunction => r"^=\(\)\w+(\.\w+)*$",
            Shape::BindScope => r"^=\|\|\w+(\.\w+)*$",
            Shape::GlobalScalar => r"^g=\w+(\.\w+)*$",
            Shape::GlobalArray => r"^g=\[\]\w+(\.\w+)*$",
            Shape::LocalScalar => r"^l=\w+(\.\w+)*$",
            Shape::LocalArray => r"^l=\[\]\w+(\.\w+)*$",
        }
    }

    /// The number of characters before the name.
    pub fn prefix(self) -> (out: usize)
        ensures
            out == self.spec_prefix(),
    {
        match self {
            Shape::ReadNamed | Shape::ReadIndexed | Shape::Call | Shape::BindScalar => 1,
            Shape::BindArray | Shape::BindFunction | Shape::BindScope => 3,
            Shape::GlobalScalar | Shape::LocalScalar => 2,
            Shape::GlobalArray | Shape::LocalArray => 4,
        }
    }

    /// The number of characters after the name.
    pub fn suffix(self) -> (out: usize)
        ensures
            out == self.spec_suffix(),
    {
        match self {
            Shape::ReadIndexed | Shape::Call => 1,
            _ => 0,
        }
    }

    /// The token of this form for a name.
    pub fn token(self, name: Identifier) -> (out: Token)
        ensures
            out@ == TokenView::Named(self, path_view(name@)),
    {
        match self {
            Shape::ReadNamed => Token::SPC(Special::GNB(name)),
            Shape::ReadIndexed => Token::SPC(Special::GIA(name)),
            Shape::Call => Token::SPC(Special::FNC(name)),
            Shape::BindScalar => Token::SPC(Special::SNB(name)),
            Shape::BindArray => Token::SPC(Special::SNA(name)),
            Shape::BindFunction => Token::SPC(Special::SNF(name)),
            Shape::BindScope => Token::SPC(Special::SNS(name)),
            Shape::GlobalScalar => Token::SPC(Special::SGB(name)),
            Shape::GlobalArray => Token::SPC(Special::SGA(name)),
            Shape::LocalScalar => Token::SPC(Special::SLB(name)),
            Shape::LocalArray => Token::SPC(Special::SLA(name)),
        }
    }
}

/// Whether the regular expression `pattern`, read as the regex crate reads
/// it, matches somewhere in `text`; `None` where the crate refuses the
/// pattern.
pub uninterp spec fn regex_search(pattern: Seq<char>, text: Seq<char>) -> Option<bool>;

/// `Regex::new` followed by `Regex::is_match` of the regex crate.  The
/// pattern is compiled with the crate's defaults and asked whether it matches
/// anywhere in the text; a pattern that does not compile gives `None`.  Both
/// depend on their arguments alone.
#[verifier::external_body]
fn regex_is_match(pattern: &str, text: &str) -> (out: Option<bool>)
    ensures
        out == regex_search(pattern@, text@),
{
    match Regex::new(pattern) {
        Ok(re) => Some(re.is_match(text)),
        Err(_) => None,
    }
}

/// The names between the dots of `s`.
pub open spec fn spec_split_path(s: Seq<char>) -> Path
    decreases s.len(),
{
    if s.len() == 0 {
        seq![Seq::empty()]
    } else {
        let before = spec_split_path(s.drop_last());
        if s.last() == '.' {
            before.push(Seq::empty())
        } else {
            before.update(before.len() - 1, before.last().push(s.last()))
        }
    }
}

proof fn lemma_split_nonempty(s: Seq<char>)
    ensures
        spec_split_path(s).len() > 0,
    decreases s.len(),
{
    if s.len() > 0 {
        lemma_split_nonempty(s.drop_last());
    }
}

/// Splits the characters from `from` up to `to` at the dots.
pub fn split_path(chars: &Vec<char>, from: usize, to: usize) -> (out: Identifier)
    ensures
        path_view(out@) == spec_split_path(piece(chars@, from as int, to as int)),
{
    let mut out: Vec<String> = Vec::new();
    if !(from <= to && to <= chars.len()) {
        out.push(string_of(chars, 0, 0));
        proof {
            assert(piece(chars@, 0, 0) =~= Seq::empty());
            assert(path_view(out@) =~= seq![Seq::empty()]);
        }
        return out;
    }
    let mut start: usize = from;
    let mut i: usize = from;
    proof {
        assert(chars@.subrange(from as int, from as int) =~= Seq::empty());
        assert(path_view(out@).push(chars@.subrange(start as int, i as int)) =~= seq![Seq::empty()]);
    }
    while i < to
        invariant
            from <= start <= i <= to <= chars.len(),
            spec_split_path(chars@.subrange(from as int, i as int)) == path_view(out@).push(
                chars@.subrange(start as int, i as int),
            ),
        decreases to - i,
    {
        let ghost done = path_view(out@);
        proof {
            let next = chars@.subrange(from as int, i + 1);
            assert(next.drop_last() =~= chars@.subrange(from as int, i as int));
            assert(next.last() == chars@[i as int]);
        }
        if chars[i] == '.' {
            let ghost opened = start;
            out.push(string_of(chars, start, i));
            start = i + 1;
            proof {
                assert(chars@.subrange(i + 1, i + 1) =~= Seq::empty());
                assert(path_view(out@) =~= done.push(chars@.subrange(opened as int, i as int)));
            }
        } else {
            proof {
                assert(chars@.subrange(start as int, i + 1) =~= chars@.subrange(start as int, i as int).push(
                    chars@[i as int],
                ));
            }
        }
        i = i + 1;
        proof {
            assert(spec_split_path(chars@.subrange(from as int, i as int)) =~= path_view(out@).push(
                chars@.subrange(start as int, i as int),
            ));
        }
    }
    let ghost done = path_view(out@);
    out.push(string_of(chars, start, i));
    proof {
        assert(path_view(out@) =~= done.push(chars@.subrange(start as int, i as int)));
    }
    out
}

/// The token that a fixed word stands for.
pub open spec fn spec_keyword(text: Seq<char>) -> Option<TokenView> {
    if text == "-"@ {
        Some(TokenView::Command(Command::SUB))
    } else if text == "+"@ {
        Some(TokenView::Command(Command::ADD))
    } else if text == "*"@ {
        Some(TokenView::Command(Command::MUL))
    } else if text == "/"@ {
        Some(TokenView::Command(Command::DIV))
    } else if text == "%"@ {
        Some(TokenView::Command(Command::MOD))
    } else if text == "^"@ {
        Some(TokenView::Command(Command::POW))
    } else if text == "sin"@ {
        Some(TokenView::Command(Command::SIN))
    } else if text == "cos"@ {
        Some(TokenView::Command(Command::COS))
    } else if text == "tan"@ {
        Some(TokenView::Command(Command::TAN))
    } else if text == "asin"@ {
        Some(TokenView::Command(Command::ASN))
    } else if text == "acos"@ {
        Some(TokenView::Command(Command::ACS))
    } else if text == "atan"@ {
        Some(TokenView::Command(Command::ATN))
    } else if text == "sqrt"@ {
        Some(TokenView::Command(Command::SQT))
    } else if text == "cbrt"@ {
        Some(TokenView::Command(Command::CBT))
    } else if text == "pi"@ {
        Some(TokenView::Number(PI))
    } else if text == "=="@ {
        Some(TokenView::Command(Command::EQU))
    } else if text == "!"@ {
        Some(TokenView::Command(Command::NOT))
    } else if text == ">"@ {
        Some(TokenView::Command(Command::GTH))
    } else if text == "<"@ {
        Some(TokenView::Command(Command::LTH))
    } else if text == "||"@ {
        Some(TokenView::Command(Command::ORR))
    } else if text == "&&"@ {
        Some(TokenView::Command(Command::AND))
    } else if text == "."@ {
        Some(TokenView::Command(Command::PNT))
    } else if text == ","@ {
        Some(TokenView::Command(Command::PTC))
    } else if text == "if"@ {
        Some(TokenView::Flow(ControlFlow::IFF))
    } else if text == "else"@ {
        Some(TokenView::Flow(ControlFlow::ELS))
    } else if text == "for"@ {
        Some(TokenView::Flow(ControlFlow::FOR))
    } else if text == "forin"@ {
        Some(TokenView::Flow(ControlFlow::FRN))
    } else if text == "while"@ {
        Some(TokenView::Flow(ControlFlow::WHL))
    } else if text == "break"@ {
        Some(TokenView::Flow(ControlFlow::BRK))
    } else if text == "return"@ {
        Some(TokenView::Flow(ControlFlow::RTN))
    } else if text == "{"@ {
        Some(TokenView::Mark(Mark::OpenBlock))
    } else if text == "}"@ {
        Some(TokenView::Mark(Mark::CloseBlock))
    } else if text == "["@ {
        Some(TokenView::Mark(Mark::OpenArray))
    } else if text == "]"@ {
        Some(TokenView::Mark(Mark::CloseArray))
    } else if text == "("@ {
        Some(TokenView::Mark(Mark::OpenFunction))
    } else if text == ")"@ {
        Some(TokenView::Mark(Mark::CloseRound))
    } else if text == ";"@ {
        Some(TokenView::Mark(Mark::RemoveTop))
    } else if text == "~"@ {
        Some(TokenView::Mark(Mark::ReadTop))
    } else if text == "|"@ {
        Some(TokenView::Mark(Mark::Pipe))
    } else if text == "buf"@ {
        Some(TokenView::Type(CreateType::BUF))
    } else if text == "arr"@ {
        Some(TokenView::Type(CreateType::ARR))
    } else if text == "fun"@ {
        Some(TokenView::Type(CreateType::FUN))
    } else if text == "scp"@ {
        Some(TokenView::Type(CreateType::SCP))
    } else if text == "non"@ {
        Some(TokenView::Type(CreateType::NUL))
    } else {
        None
    }
}

/// The token that a fixed word stands for.
pub fn keyword(chars: &Vec<char>) -> (out: Option<Token>)
    ensures
        out is Some == spec_keyword(chars@) is Some,
        out matches Some(t) ==> spec_keyword(chars@) == Some(t@),
{
    if same_text(chars, "-") {
        Some(Token::CMD(Command::SUB))
    } else if same_text(chars, "+") {
        Some(Token::CMD(Command::ADD))
    } else if same_text(chars, "*") {
        Some(Token::CMD(Command::MUL))
    } else if same_text(chars, "/") {
        Some(Token::CMD(Command::DIV))
    } else if same_text(chars, "%") {
        Some(Token::CMD(Command::MOD))
    } else if same_text(chars, "^") {
        Some(Token::CMD(Command::POW))
    } else if same_text(chars, "sin") {
        Some(Token::CMD(Command::SIN))
    } else if same_text(chars, "cos") {
        Some(Token::CMD(Command::COS))
    } else if same_text(chars, "tan") {
        Some(Token::CMD(Command::TAN))
    } else if same_text(chars, "asin") {
        Some(Token::CMD(Command::ASN))
    } else if same_text(chars, "acos") {
        Some(Token::CMD(Command::ACS))
    } else if same_text(chars, "atan") {
        Some(Token::CMD(Command::ATN))
    } else if same_text(chars, "sqrt") {
        Some(Token::CMD(Command::SQT))
    } else if same_text(chars, "cbrt") {
        Some(Token::CMD(Command::CBT))
    } else if same_text(chars, "pi") {
        Some(Token::NUM(PI))
    } else if same_text(chars, "==") {
        Some(Token::CMD(Command::EQU))
    } else if same_text(chars, "!") {
        Some(Token::CMD(Command::NOT))
    } else if same_text(chars, ">") {
        Some(Token::CMD(Command::GTH))
    } else if same_text(chars, "<") {
        Some(Token::CMD(Command::LTH))
    } else if same_text(chars, "||") {
        Some(Token::CMD(Command::ORR))
    } else if same_text(chars, "&&") {
        Some(Token::CMD(Command::AND))
    } else if same_text(chars, ".") {
        Some(Token::CMD(Command::PNT))
    } else if same_text(chars, ",") {
        Some(Token::CMD(Command::PTC))
    } else if same_text(chars, "if") {
        Some(Token::CFL(ControlFlow::IFF))
    } else if same_text(chars, "else") {
        Some(Token::CFL(ControlFlow::ELS))
    } else if same_text(chars, "for") {
        Some(Token::CFL(ControlFlow::FOR))
    } else if same_text(chars, "forin") {
        Some(Token::CFL(ControlFlow::FRN))
    } else if same_text(chars, "while") {
        Some(Token::CFL(ControlFlow::WHL))
    } else if same_text(chars, "break") {
        Some(Token::CFL(ControlFlow::BRK))
    } else if same_text(chars, "return") {
        Some(Token::CFL(ControlFlow::RTN))
    } else if same_text(chars, "{") {
        Some(Token::SPC(Special::OPB()))
    } else if same_text(chars, "}") {
        Some(Token::SPC(Special::CLB()))
    } else if same_text(chars, "[") {
        Some(Token::SPC(Special::OPS()))
    } else if same_text(chars, "]") {
        Some(Token::SPC(Special::CLS()))
    } else if same_text(chars, "(") {
        Some(Token::SPC(Special::OPR()))
    } else if same_text(chars, ")") {
        Some(Token::SPC(Special::CLR()))
    } else if same_text(chars, ";") {
        Some(Token::SPC(Special::RMB()))
    } else if same_text(chars, "~") {
        Some(Token::SPC(Special::BUF()))
    } else if same_text(chars, "|") {
        Some(Token::SPC(Special::PIP()))
    } else if same_text(chars, "buf") {
        Some(Token::TYP(CreateType::BUF))
    } else if same_text(chars, "arr") {
        Some(Token::TYP(CreateType::ARR))
    } else if same_text(chars, "fun") {
        Some(Token::TYP(CreateType::FUN))
    } else if same_text(chars, "scp") {
        Some(Token::TYP(CreateType::SCP))
    } else if same_text(chars, "non") {
        Some(Token::TYP(CreateType::NUL))
    } else {
        None
    }
}

/// Whether the characters spell the word.
pub fn same_text(chars: &Vec<char>, word: &str) -> (out: bool)
    ensures
        out == (chars@ == word@),
{
    let n = word.unicode_len();
    if n != chars.len() {
        return false;
    }
    let mut i: usize = 0;
    while i < n
        invariant
            i <= n,
            n == chars@.len(),
            n == word@.len(),
            forall|j: int| 0 <= j < i ==> chars@[j] == word@[j],
        decreases n - i,
    {
        if chars[i] != word.get_char(i) {
            return false;
        }
        i = i + 1;
    }
    proof {
        assert(chars@ =~= word@);
    }
    true
}

/// The token of a lexeme of the form `shape`, if the form's regular
/// expression matches the lexeme.
pub open spec fn spec_shaped(text: Seq<char>, shape: Shape) -> Option<TokenView> {
    if regex_search(shape.spec_pattern(), text) == Some(true) {
        Some(spec_named(text, shape))
    } else {
        None
    }
}

/// The token of a lexeme that has the form `shape`: the name between the
/// form's prefix and suffix, split at the dots.
pub open spec fn spec_named(text: Seq<char>, shape: Shape) -> TokenView {
    TokenView::Named(
        shape,
        spec_split_path(piece(text, shape.spec_prefix() as int, text.len() - shape.spec_suffix())),
    )
}

/// The token of a lexeme given the answer of the form's regular expression:
/// a token of that form when the expression matched, none otherwise.
pub fn named_token(chars: &Vec<char>, shape: Shape, matched: Option<bool>) -> (out: Option<Token>)
    ensures
        out is Some == (matched == Some(true)),
        out matches Some(t) ==> t@ == spec_named(chars@, shape),
{
    match matched {
        Some(true) => {
            let suffix = shape.suffix();
            let to: usize = if suffix <= chars.len() {
                chars.len() - suffix
            } else {
                0
            };
            let from = shape.prefix();
            proof {
                if suffix > chars.len() {
                    assert(piece(chars@, from as int, chars@.len() - suffix) =~= piece(chars@, from as int, 0));
                }
            }
            Some(shape.token(split_path(chars, from, to)))
        },
        _ => None,
    }
}

fn shaped(text: &str, chars: &Vec<char>, shape: Shape) -> (out: Option<Token>)
    requires
        text@ == chars@,
    ensures
        out is Some == spec_shaped(chars@, shape) is Some,
        out matches Some(t) ==> spec_shaped(chars@, shape) == Some(t@),
{
    named_token(chars, shape, regex_is_match(shape.pattern(), text))
}

/// The first of the forms that the lexeme has.
pub open spec fn spec_first_shape(text: Seq<char>, shapes: Seq<Shape>) -> Option<TokenView>
    decreases shapes.len(),
{
    if shapes.len() == 0 {
        None
    } else {
        match spec_shaped(text, shapes[0]) {
            Some(t) => Some(t),
            None => spec_first_shape(text, shapes.skip(1)),
        }
    }
}

fn first_shape(text: &str, chars: &Vec<char>, shapes: &Vec<Shape>) -> (out: Option<Token>)
    requires
        text@ == chars@,
    ensures
        out is Some == spec_first_shape(chars@, shapes@) is Some,
        out matches Some(t) ==> spec_first_shape(chars@, shapes@) == Some(t@),
{
    let mut i: usize = 0;
    proof {
        assert(shapes@.skip(0) =~= shapes@);
    }
    while i < shapes.len()
        invariant
            i <= shapes.len(),
            text@ == chars@,
            spec_first_shape(chars@, shapes@) == spec_first_shape(chars@, shapes@.skip(i as int)),
        decreases shapes.len() - i,
    {
        proof {
            assert(shapes@.skip(i as int).skip(1) =~= shapes@.skip(i + 1));
        }
        match shaped(text, chars, shapes[i]) {
            Some(t) => {
                return Some(t);
            },
            None => {},
        }
        i = i + 1;
    }
    None
}

/// The forms that a lexeme may have by its first character.
pub open spec fn spec_shapes(first: char) -> Seq<Shape> {
    if first == '~' {
        seq![Shape::ReadNamed, Shape::ReadIndexed, Shape::Call]
    } else if first == '=' {
        seq![Shape::BindScalar, Shape::BindArray, Shape::BindFunction, Shape::BindScope]
    } else if first == 'g' {
        seq![Shape::GlobalScalar, Shape::GlobalArray]
    } else if first == 'l' {
        seq![Shape::LocalScalar, Shape::LocalArray]
    } else {
        Seq::empty()
    }
}

fn shapes(first: char) -> (out: Vec<Shape>)
    ensures
        out@ == spec_shapes(first),
{
    let mut out: Vec<Shape> = Vec::new();
    if first == '~' {
        out.push(Shape::ReadNamed);
        out.push(Shape::ReadIndexed);
        out.push(Shape::Call);
    } else if first == '=' {
        out.push(Shape::BindScalar);
        out.push(Shape::BindArray);
        out.push(Shape::BindFunction);
        out.push(Shape::BindScope);
    } else if first == 'g' {
        out.push(Shape::GlobalScalar);
        out.push(Shape::GlobalArray);
    } else if first == 'l' {
        out.push(Shape::LocalScalar);
        out.push(Shape::LocalArray);
    }
    proof {
        assert(out@ =~= spec_shapes(first));
    }
    out
}

/// The number token for a character code.
pub open spec fn code_token(code: usize) -> TokenView {
    TokenView::Number(spec_from_count((code as u32) as nat) as u32)
}

/// The tokens of the characters of `s` from `at` on, each a number: the code
/// of the character, which may be escaped.
pub open spec fn spec_string_tokens(s: Seq<char>, at: int, acc: Seq<TokenView>) -> Result<
    Seq<TokenView>,
    ErrorView,
>
    decreases s.len() - at,
{
    if at < 0 || at >= s.len() {
        Ok(acc)
    } else {
        match spec_read_char(rest(s, at)) {
            Some((code, used)) => spec_string_tokens(s, at + used, acc.push(code_token(code))),
            None => Err(spec_expected_char()),
        }
    }
}

/// The diagnostic of a lexeme that is no token: error 2, with the line of the
/// lexeme and its place on the line.
pub open spec fn spec_unrecognized(lexeme: LexemeView) -> ErrorView {
    ErrorView {
        code: FORMAT,
        message: "Unrecognized token at line "@ + spec_decimal(lexeme.line as nat) + ", char "@ + spec_decimal(
            lexeme.column as nat,
        ),
    }
}

/// The tokens of a lexeme.  In this order: a fixed word gives its token; a
/// lexeme that reads as a number gives that number; `"` opens a string, one
/// number for each character; `'` stands before one character; `~` before a
/// position reads the operand stack there; a sigil before a dotted name gives
/// a read or a binder.  Anything else is error 2.
pub open spec fn spec_classify(lexeme: LexemeView) -> Result<Seq<TokenView>, ErrorView> {
    let text = lexeme.text;
    if spec_keyword(text) is Some {
        Ok(seq![spec_keyword(text)->0])
    } else if lexeme.number is Some {
        Ok(seq![TokenView::Number(lexeme.number->0)])
    } else if text.len() == 0 {
        Err(spec_unrecognized(lexeme))
    } else if text[0] == '"' {
        spec_string_tokens(text, 1, Seq::empty())
    } else if text[0] == '\'' {
        match spec_read_char(rest(text, 1)) {
            Some((code, used)) => if used + 1 == text.len() {
                Ok(seq![code_token(code)])
            } else {
                Err(spec_unrecognized(lexeme))
            },
            None => Err(spec_expected_char()),
        }
    } else if text[0] == '~' && spec_parse_index(rest(text, 1)) is Some {
        Ok(seq![TokenView::ReadAt(spec_parse_index(rest(text, 1))->0)])
    } else {
        match spec_first_shape(text, spec_shapes(text[0])) {
            Some(t) => Ok(seq![t]),
            None => Err(spec_unrecognized(lexeme)),
        }
    }
}

fn number_token(code: usize) -> (out: Token)
    ensures
        out@ == code_token(code),
{
    Token::NUM(from_count(code as u32))
}

/// Appends the tokens of a lexeme to `out`; error 2 for a lexeme that is no
/// token.
pub fn classify(lexeme: &Lexeme, out: &mut Vec<Token>) -> (res: Result<(), CreateError>)
    ensures
        match spec_classify(lexeme@) {
            Ok(tokens) => res is Ok && tokens_view(final(out)@) == tokens_view(old(out)@) + tokens,
            Err(e) => res is Err && res->Err_0@ == e,
        },
{
    let chars = to_chars(lexeme.text.as_str());
    let ghost before = tokens_view(out@);
    match keyword(&chars) {
        Some(t) => {
            out.push(t);
            proof {
                assert(tokens_view(out@) =~= before + seq![t@]);
            }
            return Ok(());
        },
        None => {},
    }
    match lexeme.number {
        Some(b) => {
            out.push(Token::NUM(b));
            proof {
                assert(tokens_view(out@) =~= before + seq![TokenView::Number(b)]);
            }
            return Ok(());
        },
        None => {},
    }
    if chars.len() == 0 {
        return Err(unrecognized(lexeme));
    }
    let first = chars[0];
    if first == '"' {
        let mut at: usize = 1;
        proof {
            assert(before + Seq::<TokenView>::empty() =~= before);
        }
        let ghost mut added: Seq<TokenView> = Seq::empty();
        while at < chars.len()
            invariant
                1 <= at <= chars.len(),
                chars@ == lexeme@.text,
                before == tokens_view(old(out)@),
                spec_classify(lexeme@) == spec_string_tokens(chars@, 1, Seq::empty()),
                tokens_view(out@) == before + added,
                spec_string_tokens(chars@, 1, Seq::empty()) == spec_string_tokens(chars@, at as int, added),
            decreases chars.len() - at,
        {
            match read_char(&chars, at) {
                Ok((code, next)) => {
                    let t = number_token(code);
                    let ghost so_far = tokens_view(out@);
                    out.push(t);
                    proof {
                        assert(tokens_view(out@) =~= so_far.push(t@));
                        added = added.push(t@);
                        assert(tokens_view(out@) =~= before + added);
                    }
                    at = next;
                },
                Err(e) => {
                    return Err(e);
                },
            }
        }
        return Ok(());
    }
    if first == '\'' {
        return match read_char(&chars, 1) {
            Ok((code, next)) => {
                if next == chars.len() {
                    let t = number_token(code);
                    out.push(t);
                    proof {
                        assert(tokens_view(out@) =~= before + seq![t@]);
                    }
                    Ok(())
                } else {
                    Err(unrecognized(lexeme))
                }
            },
            Err(e) => Err(e),
        };
    }
    if first == '~' {
        match parse_index(&chars, 1) {
            Some(i) => {
                out.push(Token::SPC(Special::IBF(i)));
                proof {
                    assert(tokens_view(out@) =~= before + seq![TokenView::ReadAt(i)]);
                }
                return Ok(());
            },
            None => {},
        }
    }
    match first_shape(lexeme.text.as_str(), &chars, &shapes(first)) {
        Some(t) => {
            out.push(t);
            proof {
                assert(tokens_view(out@) =~= before + seq![t@]);
            }
            Ok(())
        },
        None => Err(unrecognized(lexeme)),
    }
}

fn append_chars(to: &mut Vec<char>, from: &Vec<char>)
    ensures
        final(to)@ == old(to)@ + from@,
{
    let mut i: usize = 0;
    proof {
        assert(to@ =~= old(to)@ + from@.subrange(0, 0));
    }
    while i < from.len()
        invariant
            i <= from.len(),
            to@ == old(to)@ + from@.subrange(0, i as int),
        decreases from.len() - i,
    {
        to.push(from[i]);
        proof {
            assert(to@ =~= old(to)@ + from@.subrange(0, i + 1));
        }
        i = i + 1;
    }
    proof {
        assert(from@.subrange(0, i as int) =~= from@);
    }
}

/// The error for a lexeme that is no token; its message names the line and
/// the place of the lexeme on it.
pub fn unrecognized(lexeme: &Lexeme) -> (out: CreateError)
    ensures
        out@ == spec_unrecognized(lexeme@),
{
    let mut message = to_chars("Unrecognized token at line ");
    append_chars(&mut message, &decimal(lexeme.line));
    append_chars(&mut message, &to_chars(", char "));
    append_chars(&mut message, &decimal(lexeme.column));
    let n = message.len();
    proof {
        assert(piece(message@, 0, n as int) =~= message@);
    }
    CreateError { code: FORMAT, message: string_of(&message, 0, n) }
}

/// The tokens of the lexemes from `at` on, after those in `acc`; the error of
/// the first lexeme that is no token.
pub open spec fn spec_tokenize_from(lexemes: Seq<LexemeView>, at: int, acc: Seq<TokenView>) -> Result<
    Seq<TokenView>,
    ErrorView,
>
    decreases lexemes.len() - at,
{
    if at < 0 || at >= lexemes.len() {
        Ok(acc)
    } else {
        match spec_classify(lexemes[at]) {
            Ok(tokens) => spec_tokenize_from(lexemes, at + 1, acc + tokens),
            Err(e) => Err(e),
        }
    }
}

/// The tokens of a list of lexemes, in source order.
pub open spec fn spec_tokenize(lexemes: Seq<LexemeView>) -> Result<Seq<TokenView>, ErrorView> {
    spec_tokenize_from(lexemes, 0, Seq::empty())
}

/// Turns lexemes into tokens, in source order; error 2 at the first lexeme
/// that is no token, with a message that names its line and its place there.
pub fn tokenize(lexemes: &Vec<Lexeme>) -> (out: Result<Vec<Token>, CreateError>)
    ensures
        match spec_tokenize(lexemes_view(lexemes@)) {
            Ok(tokens) => out is Ok && tokens_view(out->Ok_0@) == tokens,
            Err(e) => out is Err && out->Err_0@ == e,
        },
{
    let mut tokens: Vec<Token> = Vec::new();
    let mut i: usize = 0;
    proof {
        assert(tokens_view(tokens@) =~= Seq::empty());
    }
    while i < lexemes.len()
        invariant
            i <= lexemes.len(),
            spec_tokenize(lexemes_view(lexemes@)) == spec_tokenize_from(
                lexemes_view(lexemes@),
                i as int,
                tokens_view(tokens@),
            ),
        decreases lexemes.len() - i,
    {
        match classify(&lexemes[i], &mut tokens) {
            Ok(()) => {},
            Err(e) => {
                return Err(e);
            },
        }
        i = i + 1;
    }
    Ok(tokens)
}

} // verus!
