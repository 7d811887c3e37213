//! LaTeX macro definitions of a math preamble, and their form in the
//! configuration of the KaTeX and MathJax engines.
use vstd::prelude::*;
use crate::config::MathEngine;
use crate::sanitization::{decimal, push_decimal};
use crate::text::{chars_of, push_all, push_str, slice, string_of};

verus! {

/// `name` without one leading backslash.
pub open spec fn unslashed(name: Seq<char>) -> Seq<char> {
    if name.len() > 0 && name[0] == '\\' { name.subrange(1, name.len() as int) } else { name }
}

fn push_unslashed(out: &mut Vec<char>, name: &str)
    ensures
        final(out)@ == old(out)@ + unslashed(name@),
{
    let n = chars_of(name);
    if n.len() > 0 && n[0] == '\\' {
        let rest = slice(&n, 1, n.len());
        push_all(out, &rest);
    } else {
        push_all(out, &n);
    }
}

/// `\operatorname`, starred or not, applied to `operator`.
pub open spec fn operator_markup(operator: Seq<char>, star: bool) -> Seq<char> {
    "\\operatorname"@ + (if star { "*"@ } else { Seq::empty() }) + "{"@ + operator + "}"@
}

fn push_operator(out: &mut Vec<char>, operator: &str, star: bool)
    ensures
        final(out)@ == old(out)@ + operator_markup(operator@, star),
{
    let ghost start = out@;
    push_str(out, "\\operatorname");
    if star {
        push_str(out, "*");
    }
    push_str(out, "{");
    push_str(out, operator);
    push_str(out, "}");
    assert(out@ =~= start + operator_markup(operator@, star));
}

/// Formats macros for KaTeX's `macros` option.
pub struct KatexFormatter;

impl KatexFormatter {
    /// `"name": "expansion"`; KaTeX reads the arguments from the expansion.
    pub fn fmt_newcommand(name: &str, expansion: &str, n_args: Option<u8>, optional_args: &Option<String>) -> (r: String)
        ensures
            r@ == "\""@ + name@ + "\": \""@ + expansion@ + "\""@,
    {
        let mut out: Vec<char> = Vec::new();
        push_str(&mut out, "\"");
        push_str(&mut out, name);
        push_str(&mut out, "\": \"");
        push_str(&mut out, expansion);
        push_str(&mut out, "\"");
        string_of(&out)
    }

    /// `"name": "\operatorname{operator}"`.
    pub fn fmt_declaremathoperator(name: &str, operator: &str, star: bool) -> (r: String)
        ensures
            r@ == "\""@ + name@ + "\": \""@ + operator_markup(operator@, star) + "\""@,
    {
        let mut out: Vec<char> = Vec::new();
        push_str(&mut out, "\"");
        push_str(&mut out, name);
        push_str(&mut out, "\": \"");
        push_operator(&mut out, operator, star);
        push_str(&mut out, "\"");
        string_of(&out)
    }
}

/// Formats macros for MathJax's `macros` option.
pub struct MathjaxFormatter;

/// The MathJax form of a macro's expansion: the bare string, or a list with
/// the argument count and the default of the optional argument.
pub open spec fn mathjax_expansion(expansion: Seq<char>, n_args: Option<u8>, optional: Option<Seq<char>>) -> Seq<char> {
    match n_args {
        Some(n) if n > 0 => match optional {
            Some(d) => "[\""@ + expansion + "\", "@ + decimal(n as nat) + ", \""@ + d + "\"]"@,
            None => "[\""@ + expansion + "\", "@ + decimal(n as nat) + "]"@,
        },
        _ => "\""@ + expansion + "\""@,
    }
}

impl MathjaxFormatter {
    /// `"name": expansion`, the name without its backslash.
    pub fn fmt_newcommand(name: &str, expansion: &str, n_args: Option<u8>, optional_args: &Option<String>) -> (r: String)
        ensures
            r@ == "\""@ + unslashed(name@) + "\": "@ + mathjax_expansion(expansion@, n_args, crate::link::opt_view(*optional_args)),
    {
        let mut out: Vec<char> = Vec::new();
        push_str(&mut out, "\"");
        push_unslashed(&mut out, name);
        push_str(&mut out, "\": ");
        let ghost mid = out@;
        let with_args = match n_args {
            Some(n) => n > 0,
            None => false,
        };
        if with_args {
            let n = n_args.unwrap();
            push_str(&mut out, "[\"");
            push_str(&mut out, expansion);
            push_str(&mut out, "\", ");
            push_decimal(&mut out, n as u64);
            match optional_args {
                Some(d) => {
                    push_str(&mut out, ", \"");
                    push_str(&mut out, d.as_str());
                    push_str(&mut out, "\"]");
                },
                None => push_str(&mut out, "]"),
            }
        } else {
            push_str(&mut out, "\"");
            push_str(&mut out, expansion);
            push_str(&mut out, "\"");
        }
        assert(out@ =~= mid + mathjax_expansion(expansion@, n_args, crate::link::opt_view(*optional_args)));
        string_of(&out)
    }

    /// `"name": "\operatorname{operator}"`, the name without its backslash.
    pub fn fmt_declaremathoperator(name: &str, operator: &str, star: bool) -> (r: String)
        ensures
            r@ == "\""@ + unslashed(name@) + "\": \""@ + operator_markup(operator@, star) + "\""@,
    {
        let mut out: Vec<char> = Vec::new();
        push_str(&mut out, "\"");
        push_unslashed(&mut out, name);
        push_str(&mut out, "\": \"");
        push_operator(&mut out, operator, star);
        push_str(&mut out, "\"");
        string_of(&out)
    }
}

/// A formatter of macro definitions for one math engine.
pub trait FormatPreamble {
    fn fmt_newcommand(&self, name: &str, expansion: &str, n_args: Option<u8>, optional_args: &Option<String>) -> String;

    fn fmt_declaremathoperator(&self, name: &str, operator: &str, star: bool) -> String;
}

impl FormatPreamble for MathEngine {
    fn fmt_newcommand(&self, name: &str, expansion: &str, n_args: Option<u8>, optional_args: &Option<String>) -> String {
        match self {
            MathEngine::Mathjax => MathjaxFormatter::fmt_newcommand(name, expansion, n_args, optional_args),
            MathEngine::Katex => KatexFormatter::fmt_newcommand(name, expansion, n_args, optional_args),
        }
    }

    fn fmt_declaremathoperator(&self, name: &str, operator: &str, star: bool) -> String {
        match self {
            MathEngine::Mathjax => MathjaxFormatter::fmt_declaremathoperator(name, operator, star),
            MathEngine::Katex => KatexFormatter::fmt_declaremathoperator(name, operator, star),
        }
    }
}

/// A token of a preamble.
#[derive(Debug, PartialEq, Eq)]
pub enum Token {
    Text(String),
    Newcommand,
    DeclareMathOperator(bool),
    Renewcommand,
    CommandName(String),
    OpenCurly,
    CloseCurly,
    OpenBracket,
    CloseBracket,
}

/// A token as plain values: a kind number and the token's text.
pub type TokenView = (int, Seq<char>);

pub open spec fn token_view(t: Token) -> TokenView {
    match t {
        Token::Text(s) => (0, s@),
        Token::Newcommand => (1, "newcommand"@),
        Token::DeclareMathOperator(false) => (2, "DeclareMathOperator"@),
        Token::DeclareMathOperator(true) => (3, "DeclareMathOperator*"@),
        Token::Renewcommand => (4, "renewcommand"@),
        Token::CommandName(s) => (5, s@),
        Token::OpenCurly => (6, "{"@),
        Token::CloseCurly => (7, "}"@),
        Token::OpenBracket => (8, "["@),
        Token::CloseBracket => (9, "]"@),
    }
}

impl Token {
    pub fn duplicate(&self) -> (r: Token)
        ensures
            token_view(r) == token_view(*self),
    {
        match self {
            Token::Text(s) => Token::Text(s.clone()),
            Token::Newcommand => Token::Newcommand,
            Token::DeclareMathOperator(b) => Token::DeclareMathOperator(*b),
            Token::Renewcommand => Token::Renewcommand,
            Token::CommandName(s) => Token::CommandName(s.clone()),
            Token::OpenCurly => Token::OpenCurly,
            Token::CloseCurly => Token::CloseCurly,
            Token::OpenBracket => Token::OpenBracket,
            Token::CloseBracket => Token::CloseBracket,
        }
    }

    /// The token's text.
    pub fn text(&self) -> (r: String)
        ensures
            r@ == token_view(*self).1,
    {
        match self {
            Token::Text(s) => s.clone(),
            Token::Newcommand => "newcommand".to_owned(),
            Token::DeclareMathOperator(false) => "DeclareMathOperator".to_owned(),
            Token::DeclareMathOperator(true) => "DeclareMathOperator*".to_owned(),
            Token::Renewcommand => "renewcommand".to_owned(),
            Token::CommandName(s) => s.clone(),
            Token::OpenCurly => "{".to_owned(),
            Token::CloseCurly => "}".to_owned(),
            Token::OpenBracket => "[".to_owned(),
            Token::CloseBracket => "]".to_owned(),
        }
    }
}

/// The token that a lexer buffer holds, if any: keywords and brackets by
/// their text, a command name after a backslash, nothing for an empty buffer
/// or a comment, text otherwise.
pub open spec fn flush_view(buf: Seq<char>) -> Option<TokenView> {
    let t = crate::chars::trimmed(buf);
    if t == "\\newcommand"@ {
        Some((1, "newcommand"@))
    } else if t == "\\DeclareMathOperator"@ {
        Some((2, "DeclareMathOperator"@))
    } else if t == "\\DeclareMathOperator*"@ {
        Some((3, "DeclareMathOperator*"@))
    } else if t == "\\renewcommand"@ {
        Some((4, "renewcommand"@))
    } else if t == "{"@ {
        Some((6, "{"@))
    } else if t == "}"@ {
        Some((7, "}"@))
    } else if t == "["@ {
        Some((8, "["@))
    } else if t == "]"@ {
        Some((9, "]"@))
    } else if t.len() == 0 {
        None
    } else if t[0] == '\\' {
        Some((5, t))
    } else if t[0] == '%' {
        None
    } else {
        Some((0, t))
    }
}

fn flush(buf: &Vec<char>) -> (r: Option<Token>)
    ensures
        match r {
            Some(t) => flush_view(buf@) == Some(token_view(t)),
            None => flush_view(buf@) is None,
        },
{
    let t = crate::chars::trim(buf);
    if crate::text::same(&t, &chars_of("\\newcommand")) {
        Some(Token::Newcommand)
    } else if crate::text::same(&t, &chars_of("\\DeclareMathOperator")) {
        Some(Token::DeclareMathOperator(false))
    } else if crate::text::same(&t, &chars_of("\\DeclareMathOperator*")) {
        Some(Token::DeclareMathOperator(true))
    } else if crate::text::same(&t, &chars_of("\\renewcommand")) {
        Some(Token::Renewcommand)
    } else if crate::text::same(&t, &chars_of("{")) {
        Some(Token::OpenCurly)
    } else if crate::text::same(&t, &chars_of("}")) {
        Some(Token::CloseCurly)
    } else if crate::text::same(&t, &chars_of("[")) {
        Some(Token::OpenBracket)
    } else if crate::text::same(&t, &chars_of("]")) {
        Some(Token::CloseBracket)
    } else if t.len() == 0 {
        None
    } else if t[0] == '\\' {
        Some(Token::CommandName(string_of(&t)))
    } else if t[0] == '%' {
        None
    } else {
        Some(Token::Text(string_of(&t)))
    }
}

pub open spec fn opt_tok(t: Option<TokenView>) -> Seq<TokenView> {
    match t {
        Some(x) => seq![x],
        None => Seq::empty(),
    }
}

/// A character read in the normal mode: a comment sign, a bracket, a
/// backslash or a line break ends the buffer's token and starts a new buffer.
pub open spec fn normal_step(buf: Seq<char>, c: char) -> (int, Seq<char>, Option<TokenView>) {
    if c == '%' {
        (1, seq![c], flush_view(buf))
    } else if c == ']' || c == '[' || c == '{' || c == '}' {
        (2, seq![c], flush_view(buf))
    } else if c == '\\' || c == '\n' {
        (0, seq![c], flush_view(buf))
    } else {
        (0, buf.push(c), None)
    }
}

/// One character through the lexer: mode 0 reads normally, mode 1 skips a
/// comment up to the line break, mode 2 follows a bracket, which is a token
/// of its own.
pub open spec fn lex_step(mode: int, buf: Seq<char>, c: char) -> (int, Seq<char>, Option<TokenView>) {
    if mode == 1 {
        if c == '\n' { (0, Seq::empty(), flush_view(buf)) } else { (1, buf, None) }
    } else if mode == 2 {
        let n = normal_step(Seq::empty(), c);
        (n.0, n.1, flush_view(buf))
    } else {
        normal_step(buf, c)
    }
}

/// Mode, buffer and tokens after reading `s`.
pub open spec fn lex_prefix(s: Seq<char>) -> (int, Seq<char>, Seq<TokenView>)
    decreases s.len(),
{
    if s.len() == 0 {
        (0, Seq::empty(), Seq::empty())
    } else {
        let p = lex_prefix(s.drop_last());
        let st = lex_step(p.0, p.1, s.last());
        (st.0, st.1, p.2 + opt_tok(st.2))
    }
}

/// The tokens of a preamble text.
pub open spec fn lexed(s: Seq<char>) -> Seq<TokenView> {
    let p = lex_prefix(s);
    p.2 + opt_tok(flush_view(p.1))
}

pub open spec fn tokens_view(v: Seq<Token>) -> Seq<TokenView> {
    Seq::new(v.len(), |i: int| token_view(v[i]))
}

/// Reads the characters of a preamble.
pub struct Lexer {
    pub text: Vec<char>,
    pub buffer: Vec<char>,
    pub mode: u8,
}

impl Lexer {
    pub fn new(text: &str) -> (r: Lexer)
        ensures
            r.text@ == text@,
            r.buffer@.len() == 0,
            r.mode == 0,
    {
        Lexer { text: chars_of(text), buffer: Vec::new(), mode: 0 }
    }

    /// All tokens of the text.
    pub fn tokens(&mut self) -> (r: Vec<Token>)
        requires
            old(self).mode == 0,
            old(self).buffer@.len() == 0,
        ensures
            tokens_view(r@) == lexed(old(self).text@),
    {
        let mut out: Vec<Token> = Vec::new();
        let mut i: usize = 0;
        let ghost text = self.text@;
        assert(text.subrange(0, 0) =~= Seq::<char>::empty());
        while i < self.text.len()
            invariant
                i <= self.text.len(),
                text == self.text@,
                self.mode <= 2,
                lex_prefix(text.subrange(0, i as int)) == (self.mode as int, self.buffer@, tokens_view(out@)),
            decreases self.text.len() - i,
        {
            let c = self.text[i];
            let ghost pre = text.subrange(0, i + 1);
            assert(pre.drop_last() =~= text.subrange(0, i as int));
            assert(pre.last() == c);
            let ghost o0 = out@;
            let res = self.step(c);
            match res {
                Some(t) => {
                    out.push(t);
                    assert(tokens_view(out@) =~= tokens_view(o0).push(token_view(t)));
                },
                None => {},
            }
            i = i + 1;
        }
        assert(text.subrange(0, text.len() as int) =~= text);
        let ghost o1 = out@;
        match flush(&self.buffer) {
            Some(t) => {
                out.push(t);
                assert(tokens_view(out@) =~= tokens_view(o1).push(token_view(t)));
            },
            None => {
                assert(tokens_view(out@) =~= tokens_view(o1) + Seq::<TokenView>::empty());
            },
        }
        self.buffer = Vec::new();
        out
    }

    fn step(&mut self, c: char) -> (r: Option<Token>)
        requires
            old(self).mode <= 2,
        ensures
            final(self).text == old(self).text,
            final(self).mode <= 2,
            (final(self).mode as int, final(self).buffer@, match r { Some(t) => Some(token_view(t)), None => None::<TokenView> })
                == lex_step(old(self).mode as int, old(self).buffer@, c),
    {
        if self.mode == 1 {
            if c == '\n' {
                let r = flush(&self.buffer);
                self.buffer = Vec::new();
                self.mode = 0;
                return r;
            }
            return None;
        }
        let r = if self.mode == 2 {
            let f = flush(&self.buffer);
            self.buffer = Vec::new();
            f
        } else {
            None
        };
        let was_full = self.mode == 2;
        let ghost b0 = self.buffer@;
        let n = if c == '%' || c == ']' || c == '[' || c == '{' || c == '}' || c == '\\' || c == '\n' {
            let f = flush(&self.buffer);
            self.buffer = Vec::new();
            self.buffer.push(c);
            self.mode = if c == '%' { 1 } else if c == '\\' || c == '\n' { 0 } else { 2 };
            f
        } else {
            self.buffer.push(c);
            self.mode = 0;
            None
        };
        assert(self.buffer@ =~= (if c == '%' || c == ']' || c == '[' || c == '{' || c == '}' || c == '\\' || c == '\n' { seq![c] } else { b0.push(c) }));
        if was_full {
            proof {
                reveal_strlit("\\newcommand");
                reveal_strlit("\\DeclareMathOperator");
                reveal_strlit("\\DeclareMathOperator*");
                reveal_strlit("\\renewcommand");
                reveal_strlit("{");
                reveal_strlit("}");
                reveal_strlit("[");
                reveal_strlit("]");
                assert(crate::chars::trimmed(Seq::<char>::empty()) =~= Seq::<char>::empty());
                assert(flush_view(Seq::<char>::empty()) is None);
            }
            r
        } else {
            n
        }
    }
}

/// What a macro definition declares.
#[derive(Debug, PartialEq, Eq, Structural, Clone, Copy)]
pub enum Declarator {
    NewCommand,
    RenewCommand,
    DeclareMathOperator(bool),
}

/// A macro definition: its name, its expansion, what declares it, and its
/// argument count and default argument, if given.
#[derive(Debug, PartialEq, Eq)]
pub struct TexCommand {
    pub cmd: String,
    pub definition: String,
    pub declarator: Declarator,
    pub argc: Option<u8>,
    pub default_args: Option<String>,
}

impl TexCommand {
    pub fn new(cmd: &str, definition: &str, declarator: Declarator) -> (r: TexCommand)
        ensures
            r.cmd@ == cmd@,
            r.definition@ == definition@,
            r.declarator == declarator,
            r.argc is None,
            r.default_args is None,
    {
        TexCommand { cmd: cmd.to_owned(), definition: definition.to_owned(), declarator, argc: None, default_args: None }
    }

    pub fn with_args(self, count: u8) -> (r: TexCommand)
        ensures
            r.argc == Some(count),
            r.cmd == self.cmd,
            r.definition == self.definition,
            r.declarator == self.declarator,
            r.default_args == self.default_args,
    {
        let mut s = self;
        s.argc = Some(count);
        s
    }

    pub fn with_defaults(self, count: u8, defaults: &str) -> (r: TexCommand)
        ensures
            r.argc == Some(count),
            crate::link::opt_view(r.default_args) == Some(defaults@),
            r.cmd == self.cmd,
            r.definition == self.definition,
            r.declarator == self.declarator,
    {
        let mut s = self;
        s.argc = Some(count);
        s.default_args = Some(defaults.to_owned());
        s
    }

    pub fn newcommand(cmd: &str, definition: &str) -> (r: TexCommand)
        ensures
            r.cmd@ == cmd@ && r.definition@ == definition@ && r.declarator == Declarator::NewCommand,
            r.argc is None && r.default_args is None,
    {
        Self::new(cmd, definition, Declarator::NewCommand)
    }

    pub fn declare_math_operator(cmd: &str, definition: &str) -> (r: TexCommand)
        ensures
            r.cmd@ == cmd@ && r.definition@ == definition@ && r.declarator == Declarator::DeclareMathOperator(false),
            r.argc is None && r.default_args is None,
    {
        Self::new(cmd, definition, Declarator::DeclareMathOperator(false))
    }

    pub fn renewcommand(cmd: &str, definition: &str) -> (r: TexCommand)
        ensures
            r.cmd@ == cmd@ && r.definition@ == definition@ && r.declarator == Declarator::RenewCommand,
            r.argc is None && r.default_args is None,
    {
        Self::new(cmd, definition, Declarator::RenewCommand)
    }
}

/// Why a macro definition could not be read.
#[derive(Debug, PartialEq, Eq)]
pub enum SyntaxError {
    /// A math operator takes no arguments.
    NoArguments,
    /// The tokens that were expected, and the one found.
    UnexpectedToken(Vec<Token>, Token),
    InvalidCommand(Token),
    InvalidNumber(Token),
    /// The preamble ended inside a definition.
    PrematureEnd,
}

/// Where the reading of a macro definition stands.
#[derive(Debug, PartialEq, Eq)]
pub enum CommandParseState {
    Start,
    OpenName,
    /// The name, and whether it stands in braces.
    Name(String, bool),
    CloseName,
    OpenArgCount,
    ArgCount(u8),
    CloseArgCount,
    OpenDefaultArgs,
    DefaultArgs(String),
    CloseDefaultArgs,
    OpenImpl,
    /// Text of the expansion just read, and the depth of open braces.
    Impl(String, u8),
    Done,
}

/// A reading state as plain values: its number, its text, its count and its flag.
pub type StateView = (int, Seq<char>, int, bool);

pub open spec fn state_view(s: CommandParseState) -> StateView {
    match s {
        CommandParseState::Start => (0, Seq::empty(), 0, false),
        CommandParseState::OpenName => (1, Seq::empty(), 0, false),
        CommandParseState::Name(n, b) => (2, n@, 0, b),
        CommandParseState::CloseName => (3, Seq::empty(), 0, false),
        CommandParseState::OpenArgCount => (4, Seq::empty(), 0, false),
        CommandParseState::ArgCount(k) => (5, Seq::empty(), k as int, false),
        CommandParseState::CloseArgCount => (6, Seq::empty(), 0, false),
        CommandParseState::OpenDefaultArgs => (7, Seq::empty(), 0, false),
        CommandParseState::DefaultArgs(d) => (8, d@, 0, false),
        CommandParseState::CloseDefaultArgs => (9, Seq::empty(), 0, false),
        CommandParseState::OpenImpl => (10, Seq::empty(), 0, false),
        CommandParseState::Impl(t, d) => (11, t@, d as int, false),
        CommandParseState::Done => (12, Seq::empty(), 0, false),
    }
}

pub open spec fn st(code: int) -> StateView {
    (code, Seq::empty(), 0, false)
}

/// One token through a definition: 0 and the next state, or 1 for an
/// unexpected token, or 2 for an argument count that is no number below 256.
pub open spec fn transition(s: StateView, t: TokenView) -> (int, StateView) {
    let unexpected = (1int, s);
    if s.0 == 0 {
        if t.0 == 6 { (0, st(1)) } else if t.0 == 5 { (0, (2, t.1, 0, false)) } else { unexpected }
    } else if s.0 == 1 {
        if t.0 == 5 { (0, (2, t.1, 0, true)) } else { unexpected }
    } else if s.0 == 2 && s.3 {
        if t.0 == 7 { (0, st(3)) } else { unexpected }
    } else if s.0 == 2 || s.0 == 3 {
        if t.0 == 6 { (0, st(10)) } else if t.0 == 8 { (0, st(4)) } else { unexpected }
    } else if s.0 == 4 {
        if t.0 == 0 {
            match crate::utils::parse_u32_spec(t.1) {
                Some(n) if n <= 255 => (0, (5, Seq::empty(), n as int, false)),
                _ => (2, s),
            }
        } else if t.0 == 9 { (0, st(6)) } else { unexpected }
    } else if s.0 == 5 {
        if t.0 == 9 { (0, st(6)) } else { unexpected }
    } else if s.0 == 6 {
        if t.0 == 6 { (0, st(10)) } else if t.0 == 8 { (0, st(7)) } else { unexpected }
    } else if s.0 == 7 {
        if t.0 == 0 { (0, (8, t.1, 0, false)) } else if t.0 == 9 { (0, st(9)) } else if t.0 == 8 { (0, st(4)) } else { unexpected }
    } else if s.0 == 8 {
        if t.0 == 9 { (0, st(6)) } else { unexpected }
    } else if s.0 == 9 {
        if t.0 == 6 { (0, st(10)) } else { unexpected }
    } else if s.0 == 10 {
        if t.0 == 7 { (0, st(12)) } else if t.0 == 6 { (0, (11, t.1, 1, false)) } else { (0, (11, t.1, 0, false)) }
    } else if s.0 == 11 {
        if t.0 == 7 {
            if s.2 > 0 { (0, (11, t.1, s.2 - 1, false)) } else { (0, st(12)) }
        } else if t.0 == 6 {
            (0, (11, t.1, if s.2 < 255 { s.2 + 1 } else { s.2 }, false))
        } else {
            (0, (11, t.1, s.2, false))
        }
    } else {
        (0, st(12))
    }
}

fn u8_of(t: &String) -> (r: Option<u8>)
    ensures
        r == match crate::utils::parse_u32_spec(t@) {
            Some(n) if n <= 255 => Some(n as u8),
            _ => None::<u8>,
        },
{
    match crate::utils::parse_u32(&chars_of(t.as_str())) {
        Some(n) => if n <= 255 { Some(n as u8) } else { None },
        None => None,
    }
}

/// The next state after a token, or the error it causes.
pub fn next_state(s: &CommandParseState, t: &Token) -> (r: Result<CommandParseState, SyntaxError>)
    requires
        state_view(*s).2 <= 255,
    ensures
        match r {
            Ok(n) => transition(state_view(*s), token_view(*t)) == (0int, state_view(n)),
            Err(e) => transition(state_view(*s), token_view(*t)).0 == (if e is InvalidNumber { 2int } else { 1int })
                && (e is UnexpectedToken || e is InvalidNumber),
        },
{
    let unexpected = SyntaxError::UnexpectedToken(Vec::new(), t.duplicate());
    match s {
        CommandParseState::Start => match t {
            Token::OpenCurly => Ok(CommandParseState::OpenName),
            Token::CommandName(n) => Ok(CommandParseState::Name(n.clone(), false)),
            _ => Err(unexpected),
        },
        CommandParseState::OpenName => match t {
            Token::CommandName(n) => Ok(CommandParseState::Name(n.clone(), true)),
            _ => Err(unexpected),
        },
        CommandParseState::Name(_, true) => match t {
            Token::CloseCurly => Ok(CommandParseState::CloseName),
            _ => Err(unexpected),
        },
        CommandParseState::Name(_, false) | CommandParseState::CloseName => match t {
            Token::OpenCurly => Ok(CommandParseState::OpenImpl),
            Token::OpenBracket => Ok(CommandParseState::OpenArgCount),
            _ => Err(unexpected),
        },
        CommandParseState::OpenArgCount => match t {
            Token::Text(n) => match u8_of(n) {
                Some(k) => Ok(CommandParseState::ArgCount(k)),
                None => Err(SyntaxError::InvalidNumber(t.duplicate())),
            },
            Token::CloseBracket => Ok(CommandParseState::CloseArgCount),
            _ => Err(unexpected),
        },
        CommandParseState::ArgCount(_) => match t {
            Token::CloseBracket => Ok(CommandParseState::CloseArgCount),
            _ => Err(unexpected),
        },
        CommandParseState::CloseArgCount => match t {
            Token::OpenCurly => Ok(CommandParseState::OpenImpl),
            Token::OpenBracket => Ok(CommandParseState::OpenDefaultArgs),
            _ => Err(unexpected),
        },
        CommandParseState::OpenDefaultArgs => match t {
            Token::Text(d) => Ok(CommandParseState::DefaultArgs(d.clone())),
            Token::CloseBracket => Ok(CommandParseState::CloseDefaultArgs),
            Token::OpenBracket => Ok(CommandParseState::OpenArgCount),
            _ => Err(unexpected),
        },
        CommandParseState::DefaultArgs(_) => match t {
            Token::CloseBracket => Ok(CommandParseState::CloseArgCount),
            _ => Err(unexpected),
        },
        CommandParseState::CloseDefaultArgs => match t {
            Token::OpenCurly => Ok(CommandParseState::OpenImpl),
            _ => Err(unexpected),
        },
        CommandParseState::OpenImpl => match t {
            Token::CloseCurly => Ok(CommandParseState::Done),
            Token::OpenCurly => Ok(CommandParseState::Impl(t.text(), 1)),
            _ => Ok(CommandParseState::Impl(t.text(), 0)),
        },
        CommandParseState::Impl(_, d) => match t {
            Token::CloseCurly => if *d > 0 {
                Ok(CommandParseState::Impl(t.text(), *d - 1))
            } else {
                Ok(CommandParseState::Done)
            },
            Token::OpenCurly => Ok(CommandParseState::Impl(t.text(), if *d < 255 { *d + 1 } else { *d })),
            _ => Ok(CommandParseState::Impl(t.text(), *d)),
        },
        CommandParseState::Done => Ok(CommandParseState::Done),
    }
}

/// The outcome of reading one definition: a status (0 read, 1 arguments
/// given to a math operator, 2 unexpected token, 4 bad argument count, 5 end
/// of text), then name, expansion, declarator (0 `\newcommand`, 1
/// `\renewcommand`, 2 and 3 `\DeclareMathOperator` plain and starred),
/// argument count and default argument.
pub type ResultView = (int, Seq<char>, Seq<char>, int, Option<u8>, Option<Seq<char>>);

pub open spec fn failed(status: int) -> ResultView {
    (status, Seq::empty(), Seq::empty(), 0, None, None)
}

pub open spec fn declarator_code(d: Declarator) -> int {
    match d {
        Declarator::NewCommand => 0,
        Declarator::RenewCommand => 1,
        Declarator::DeclareMathOperator(false) => 2,
        Declarator::DeclareMathOperator(true) => 3,
    }
}

pub open spec fn result_view(r: Result<TexCommand, SyntaxError>) -> ResultView {
    match r {
        Ok(c) => (0, c.cmd@, c.definition@, declarator_code(c.declarator), c.argc, crate::link::opt_view(c.default_args)),
        Err(SyntaxError::NoArguments) => failed(1),
        Err(SyntaxError::UnexpectedToken(_, _)) => failed(2),
        Err(SyntaxError::InvalidCommand(_)) => failed(3),
        Err(SyntaxError::InvalidNumber(_)) => failed(4),
        Err(SyntaxError::PrematureEnd) => failed(5),
    }
}

/// Reads a `\newcommand` or `\renewcommand` from `pos` on: each token moves
/// the state, and the state's values are kept as they come; gives the outcome
/// and where reading goes on.
pub open spec fn command_run(toks: Seq<TokenView>, pos: int, s: StateView, name: Seq<char>, def: Seq<char>, argc: Option<u8>, dflt: Option<Seq<char>>, decl: int) -> (ResultView, int)
    decreases toks.len() - pos,
{
    if pos < 0 || pos >= toks.len() {
        (failed(5), pos)
    } else {
        let tr = transition(s, toks[pos]);
        if tr.0 != 0 {
            (failed(if tr.0 == 1 { 2 } else { 4 }), pos + 1)
        } else {
            let n = tr.1;
            let name2 = if n.0 == 2 { n.1 } else { name };
            let def2 = if n.0 == 11 { def + n.1 } else { def };
            let argc2 = if n.0 == 5 { Some(n.2 as u8) } else { argc };
            let dflt2 = if n.0 == 8 { Some(n.1) } else { dflt };
            if n.0 == 12 {
                ((0, name2, def2, decl, argc2, dflt2), pos + 1)
            } else {
                command_run(toks, pos + 1, n, name2, def2, argc2, dflt2, decl)
            }
        }
    }
}

/// Reads a `\DeclareMathOperator` from `pos` on: a state of the argument part
/// is an error, and the values of each state are kept when the next token comes.
pub open spec fn operator_run(toks: Seq<TokenView>, pos: int, s: StateView, name: Seq<char>, def: Seq<char>, decl: int) -> (ResultView, int)
    decreases toks.len() - pos,
{
    if pos < 0 || pos >= toks.len() {
        (failed(5), pos)
    } else if 4 <= s.0 <= 9 {
        (failed(1), pos + 1)
    } else {
        let name2 = if s.0 == 2 { s.1 } else { name };
        let def2 = if s.0 == 11 { def + s.1 } else { def };
        if s.0 == 12 {
            ((0, name2, def2, decl, None, None), pos + 1)
        } else {
            let tr = transition(s, toks[pos]);
            if tr.0 != 0 {
                (failed(if tr.0 == 1 { 2 } else { 4 }), pos + 1)
            } else {
                operator_run(toks, pos + 1, tr.1, name2, def2, decl)
            }
        }
    }
}

proof fn lemma_command_run_advances(toks: Seq<TokenView>, pos: int, s: StateView, name: Seq<char>, def: Seq<char>, argc: Option<u8>, dflt: Option<Seq<char>>, decl: int)
    requires
        0 <= pos,
    ensures
        pos <= command_run(toks, pos, s, name, def, argc, dflt, decl).1 <= if pos <= toks.len() { toks.len() as int } else { pos },
    decreases toks.len() - pos,
{
    if pos < toks.len() {
        let tr = transition(s, toks[pos]);
        if tr.0 == 0 && tr.1.0 != 12 {
            let n = tr.1;
            lemma_command_run_advances(toks, pos + 1, n, if n.0 == 2 { n.1 } else { name }, if n.0 == 11 { def + n.1 } else { def },
                if n.0 == 5 { Some(n.2 as u8) } else { argc }, if n.0 == 8 { Some(n.1) } else { dflt }, decl);
        }
    }
}

proof fn lemma_operator_run_advances(toks: Seq<TokenView>, pos: int, s: StateView, name: Seq<char>, def: Seq<char>, decl: int)
    requires
        0 <= pos,
    ensures
        pos <= operator_run(toks, pos, s, name, def, decl).1 <= if pos <= toks.len() { toks.len() as int } else { pos },
    decreases toks.len() - pos,
{
    if pos < toks.len() && !(4 <= s.0 <= 9) && s.0 != 12 {
        let tr = transition(s, toks[pos]);
        if tr.0 == 0 {
            lemma_operator_run_advances(toks, pos + 1, tr.1, if s.0 == 2 { s.1 } else { name }, if s.0 == 11 { def + s.1 } else { def }, decl);
        }
    }
}

/// The outcomes of the definitions from `pos` on; other tokens are skipped.
pub open spec fn parse_from(toks: Seq<TokenView>, pos: int) -> Seq<ResultView>
    decreases toks.len() - pos,
{
    if pos < 0 || pos >= toks.len() {
        Seq::empty()
    } else {
        let k = toks[pos].0;
        if k == 2 || k == 3 {
            let r = operator_run(toks, pos + 1, st(0), Seq::empty(), Seq::empty(), k);
            if pos < r.1 <= toks.len() { seq![r.0] + parse_from(toks, r.1) } else { seq![r.0] }
        } else if k == 1 || k == 4 {
            let r = command_run(toks, pos + 1, st(0), Seq::empty(), Seq::empty(), None, None, if k == 1 { 0 } else { 1 });
            if pos < r.1 <= toks.len() { seq![r.0] + parse_from(toks, r.1) } else { seq![r.0] }
        } else {
            parse_from(toks, pos + 1)
        }
    }
}

fn run_command(toks: &Vec<Token>, start: usize, decl: Declarator) -> (r: (Result<TexCommand, SyntaxError>, usize))
    requires
        decl == Declarator::NewCommand || decl == Declarator::RenewCommand,
        start <= toks.len(),
    ensures
        (result_view(r.0), r.1 as int) == command_run(tokens_view(toks@), start as int, st(0), Seq::empty(), Seq::empty(), None, None, declarator_code(decl)),
{
    let ghost tv = tokens_view(toks@);
    let mut state = CommandParseState::Start;
    let mut name = String::new();
    let mut def: Vec<char> = Vec::new();
    let mut argc: Option<u8> = None;
    let mut dflt: Option<String> = None;
    let mut pos = start;
    while pos < toks.len()
        invariant
            start <= pos <= toks.len(),
            tv == tokens_view(toks@),
            state_view(state).0 != 12,
            command_run(tv, pos as int, state_view(state), name@, def@, argc, crate::link::opt_view(dflt), declarator_code(decl))
                == command_run(tv, start as int, st(0), Seq::empty(), Seq::empty(), None, None, declarator_code(decl)),
        decreases toks.len() - pos,
    {
        let next = next_state(&state, &toks[pos]);
        match next {
            Err(e) => {
                return (Err(e), pos + 1);
            },
            Ok(n) => {
                match &n {
                    CommandParseState::Name(x, _) => name = x.clone(),
                    CommandParseState::Impl(x, _) => crate::text::push_str(&mut def, x.as_str()),
                    CommandParseState::ArgCount(k) => argc = Some(*k),
                    CommandParseState::DefaultArgs(d) => dflt = Some(d.clone()),
                    _ => {},
                }
                if matches!(n, CommandParseState::Done) {
                    return (Ok(TexCommand { cmd: name, definition: string_of(&def), declarator: decl, argc, default_args: dflt }), pos + 1);
                }
                state = n;
            },
        }
        pos = pos + 1;
    }
    (Err(SyntaxError::PrematureEnd), pos)
}

fn run_operator(toks: &Vec<Token>, start: usize, star: bool) -> (r: (Result<TexCommand, SyntaxError>, usize))
    requires
        start <= toks.len(),
    ensures
        (result_view(r.0), r.1 as int) == operator_run(tokens_view(toks@), start as int, st(0), Seq::empty(), Seq::empty(), if star { 3int } else { 2int }),
{
    let ghost tv = tokens_view(toks@);
    let ghost code = if star { 3int } else { 2int };
    let mut state = CommandParseState::Start;
    let mut name = String::new();
    let mut def: Vec<char> = Vec::new();
    let mut pos = start;
    while pos < toks.len()
        invariant
            start <= pos <= toks.len(),
            tv == tokens_view(toks@),
            code == (if star { 3int } else { 2int }),
            operator_run(tv, pos as int, state_view(state), name@, def@, code)
                == operator_run(tv, start as int, st(0), Seq::empty(), Seq::empty(), code),
        decreases toks.len() - pos,
    {
        match &state {
            CommandParseState::OpenArgCount | CommandParseState::ArgCount(_) | CommandParseState::CloseArgCount
            | CommandParseState::OpenDefaultArgs | CommandParseState::DefaultArgs(_) | CommandParseState::CloseDefaultArgs => {
                return (Err(SyntaxError::NoArguments), pos + 1);
            },
            CommandParseState::Name(x, _) => name = x.clone(),
            CommandParseState::Impl(x, _) => crate::text::push_str(&mut def, x.as_str()),
            CommandParseState::Done => {
                return (Ok(TexCommand { cmd: name, definition: string_of(&def), declarator: Declarator::DeclareMathOperator(star), argc: None, default_args: None }), pos + 1);
            },
            _ => {},
        }
        match next_state(&state, &toks[pos]) {
            Err(e) => {
                return (Err(e), pos + 1);
            },
            Ok(n) => state = n,
        }
        pos = pos + 1;
    }
    (Err(SyntaxError::PrematureEnd), pos)
}

/// Reads every macro definition of a math preamble: `\newcommand`,
/// `\renewcommand` and `\DeclareMathOperator`, in order; other text is skipped.
pub fn parse_preamble(preamble: &str) -> (r: Vec<Result<TexCommand, SyntaxError>>)
    ensures
        Seq::new(r@.len(), |i: int| result_view(r@[i])) == parse_from(lexed(preamble@), 0),
{
    let mut lexer = Lexer::new(preamble);
    let toks = lexer.tokens();
    let ghost tv = tokens_view(toks@);
    let mut out: Vec<Result<TexCommand, SyntaxError>> = Vec::new();
    let mut pos: usize = 0;
    while pos < toks.len()
        invariant
            pos <= toks.len(),
            tv == tokens_view(toks@),
            tv == lexed(preamble@),
            Seq::new(out@.len(), |i: int| result_view(out@[i])) + parse_from(tv, pos as int) == parse_from(tv, 0),
        decreases toks.len() - pos,
    {
        let ghost o0 = Seq::new(out@.len(), |i: int| result_view(out@[i]));
        match &toks[pos] {
            Token::DeclareMathOperator(star) => {
                proof { lemma_operator_run_advances(tv, pos + 1, st(0), Seq::empty(), Seq::empty(), if *star { 3int } else { 2int }); }
                let (res, next) = run_operator(&toks, pos + 1, *star);
                let ghost rv = result_view(res);
                out.push(res);
                assert(Seq::new(out@.len(), |i: int| result_view(out@[i])) =~= o0.push(rv));
                assert(parse_from(tv, pos as int) == seq![rv] + parse_from(tv, next as int));
                assert(o0.push(rv) + parse_from(tv, next as int) =~= o0 + (seq![rv] + parse_from(tv, next as int)));
                pos = next;
            },
            Token::Newcommand | Token::Renewcommand => {
                let decl = match &toks[pos] {
                    Token::Newcommand => Declarator::NewCommand,
                    _ => Declarator::RenewCommand,
                };
                proof { lemma_command_run_advances(tv, pos + 1, st(0), Seq::empty(), Seq::empty(), None, None, declarator_code(decl)); }
                let (res, next) = run_command(&toks, pos + 1, decl);
                let ghost rv = result_view(res);
                out.push(res);
                assert(Seq::new(out@.len(), |i: int| result_view(out@[i])) =~= o0.push(rv));
                assert(parse_from(tv, pos as int) == seq![rv] + parse_from(tv, next as int));
                assert(o0.push(rv) + parse_from(tv, next as int) =~= o0 + (seq![rv] + parse_from(tv, next as int)));
                pos = next;
            },
            _ => {
                pos = pos + 1;
            },
        }
    }
    assert(Seq::new(out@.len(), |i: int| result_view(out@[i])) + Seq::<ResultView>::empty() =~= Seq::new(out@.len(), |i: int| result_view(out@[i])));
    out
}

/// The configuration entry of one definition for a math engine.
pub open spec fn entry_of(engine: MathEngine, r: ResultView) -> Seq<char> {
    let name = r.1;
    let def = r.2;
    if r.3 == 2 || r.3 == 3 {
        match engine {
            MathEngine::Katex => "\""@ + name + "\": \""@ + operator_markup(def, r.3 == 3) + "\""@,
            MathEngine::Mathjax => "\""@ + unslashed(name) + "\": \""@ + operator_markup(def, r.3 == 3) + "\""@,
        }
    } else {
        match engine {
            MathEngine::Katex => "\""@ + name + "\": \""@ + def + "\""@,
            MathEngine::Mathjax => "\""@ + unslashed(name) + "\": "@ + mathjax_expansion(def, r.4, r.5),
        }
    }
}

/// The entries of the definitions that were read, joined by `,` and a line
/// break; definitions that could not be read are left out.
pub open spec fn entries_joined(engine: MathEngine, rs: Seq<ResultView>) -> Seq<char>
    decreases rs.len(),
{
    if rs.len() == 0 {
        Seq::empty()
    } else {
        let prev = entries_joined(engine, rs.drop_last());
        let r = rs.last();
        if r.0 != 0 {
            prev
        } else if prev.len() == 0 && !has_entry(rs.drop_last()) {
            entry_of(engine, r)
        } else {
            prev + ",\n"@ + entry_of(engine, r)
        }
    }
}

/// Whether some definition was read.
pub open spec fn has_entry(rs: Seq<ResultView>) -> bool {
    exists|i: int| 0 <= i < rs.len() && rs[i].0 == 0
}

/// The macros option of the math engine for a preamble, with every backslash
/// doubled for a JavaScript string.
pub fn convert_preamble(preamble: &str, engine: MathEngine) -> (r: String)
    ensures
        r@ == crate::text::replaced(entries_joined(engine, parse_from(lexed(preamble@), 0)), "\\"@, "\\\\"@),
{
    let results = parse_preamble(preamble);
    let ghost rv = Seq::new(results@.len(), |i: int| result_view(results@[i]));
    let mut out: Vec<char> = Vec::new();
    let mut any = false;
    let mut i: usize = 0;
    while i < results.len()
        invariant
            i <= results.len(),
            rv == Seq::new(results@.len(), |i: int| result_view(results@[i])),
            any == has_entry(rv.subrange(0, i as int)),
            out@ == entries_joined(engine, rv.subrange(0, i as int)),
        decreases results.len() - i,
    {
        let ghost pre = rv.subrange(0, i + 1);
        assert(pre.drop_last() =~= rv.subrange(0, i as int));
        match &results[i] {
            Ok(c) => {
                let e = match c.declarator {
                    Declarator::DeclareMathOperator(star) => match engine {
                        MathEngine::Katex => KatexFormatter::fmt_declaremathoperator(c.cmd.as_str(), c.definition.as_str(), star),
                        MathEngine::Mathjax => MathjaxFormatter::fmt_declaremathoperator(c.cmd.as_str(), c.definition.as_str(), star),
                    },
                    _ => match engine {
                        MathEngine::Katex => KatexFormatter::fmt_newcommand(c.cmd.as_str(), c.definition.as_str(), c.argc, &c.default_args),
                        MathEngine::Mathjax => MathjaxFormatter::fmt_newcommand(c.cmd.as_str(), c.definition.as_str(), c.argc, &c.default_args),
                    },
                };
                assert(e@ == entry_of(engine, rv[i as int]));
                if any {
                    push_str(&mut out, ",\n");
                } else {
                    assert(out@.len() == 0) by {
                        assert(!has_entry(rv.subrange(0, i as int)));
                        lemma_no_entry_empty(engine, rv.subrange(0, i as int));
                    }
                }
                push_str(&mut out, e.as_str());
                any = true;
                assert(pre[i as int].0 == 0);
            },
            Err(_) => {
                assert(has_entry(pre) == has_entry(rv.subrange(0, i as int))) by {
                    if has_entry(pre) {
                        let j = choose|j: int| 0 <= j < pre.len() && pre[j].0 == 0;
                        assert(j < i);
                        assert(rv.subrange(0, i as int)[j] == pre[j]);
                    }
                }
            },
        }
        i = i + 1;
    }
    assert(rv.subrange(0, rv.len() as int) =~= rv);
    let bs = chars_of("\\");
    let dbs = chars_of("\\\\");
    string_of(&crate::text::replace_all(&out, &bs, &dbs))
}

proof fn lemma_no_entry_empty(engine: MathEngine, rs: Seq<ResultView>)
    requires
        !has_entry(rs),
    ensures
        entries_joined(engine, rs).len() == 0,
    decreases rs.len(),
{
    if rs.len() > 0 {
        assert(!has_entry(rs.drop_last())) by {
            if has_entry(rs.drop_last()) {
                let j = choose|j: int| 0 <= j < rs.drop_last().len() && rs.drop_last()[j].0 == 0;
                assert(rs[j].0 == 0);
            }
        }
        lemma_no_entry_empty(engine, rs.drop_last());
        assert(rs[rs.len() - 1].0 != 0);
    }
}

} // verus!
