use vstd::prelude::*;

verus! {

/// The kind of a token, without the text that some kinds carry.
#[derive(Clone, Copy, PartialEq, Eq, Structural, Debug)]
pub enum TokenKind {
    LeftParen,
    RightParen,
    LeftBrace,
    RightBrace,
    Comma,
    Dot,
    Minus,
    Plus,
    Semicolon,
    Slash,
    Star,
    Bang,
    BangEqual,
    Equal,
    EqualEqual,
    Greater,
    GreaterEqual,
    Less,
    LessEqual,
    And,
    Class,
    Else,
    False,
    Fun,
    For,
    If,
    Nil,
    Or,
    Print,
    Return,
    Super,
    This,
    True,
    Var,
    While,
    Eof,
    StrLiteral,
    NumLiteral,
    Identifier,
}

/// A token of Lox source text.
#[derive(Debug)]
pub enum Token {
    LeftParen,
    RightParen,
    LeftBrace,
    RightBrace,
    Comma,
    Dot,
    Minus,
    Plus,
    Semicolon,
    Slash,
    Star,
    Bang,
    BangEqual,
    Equal,
    EqualEqual,
    Greater,
    GreaterEqual,
    Less,
    LessEqual,
    And,
    Class,
    Else,
    False,
    Fun,
    For,
    If,
    Nil,
    Or,
    Print,
    Return,
    Super,
    This,
    True,
    Var,
    While,
    Eof,
    StrLiteral { lexeme: String, value: String },
    NumLiteral { lexeme: String },
    Identifier { lexeme: String },
}

/// What a token is, as plain values: its kind, the source text of the
/// kinds that carry one (empty for the others) and the value of a string
/// literal (empty for the others).
pub struct TokenView {
    pub kind: TokenKind,
    pub text: Seq<char>,
    pub value: Seq<char>,
}

/// The fixed spelling of the kinds that carry no text.
pub open spec fn kind_lexeme(k: TokenKind) -> Seq<char> {
    match k {
        TokenKind::LeftParen => "("@,
        TokenKind::RightParen => ")"@,
        TokenKind::LeftBrace => "{"@,
        TokenKind::RightBrace => "}"@,
        TokenKind::Comma => ","@,
        TokenKind::Dot => "."@,
        TokenKind::Minus => "-"@,
        TokenKind::Plus => "+"@,
        TokenKind::Semicolon => ";"@,
        TokenKind::Slash => "/"@,
        TokenKind::Star => "*"@,
        TokenKind::Bang => "!"@,
        TokenKind::BangEqual => "!="@,
        TokenKind::Equal => "="@,
        TokenKind::EqualEqual => "=="@,
        TokenKind::Greater => ">"@,
        TokenKind::GreaterEqual => ">="@,
        TokenKind::Less => "<"@,
        TokenKind::LessEqual => "<="@,
        TokenKind::And => "and"@,
        TokenKind::Class => "class"@,
        TokenKind::Else => "else"@,
        TokenKind::False => "false"@,
        TokenKind::Fun => "fun"@,
        TokenKind::For => "for"@,
        TokenKind::If => "if"@,
        TokenKind::Nil => "nil"@,
        TokenKind::Or => "or"@,
        TokenKind::Print => "print"@,
        TokenKind::Return => "return"@,
        TokenKind::Super => "super"@,
        TokenKind::This => "this"@,
        TokenKind::True => "true"@,
        TokenKind::Var => "var"@,
        TokenKind::While => "while"@,
        TokenKind::Eof => ""@,
        _ => Seq::empty(),
    }
}

/// The upper-case name of each kind.
pub open spec fn kind_name(k: TokenKind) -> Seq<char> {
    match k {
        TokenKind::LeftParen => "LEFT_PAREN"@,
        TokenKind::RightParen => "RIGHT_PAREN"@,
        TokenKind::LeftBrace => "LEFT_BRACE"@,
        TokenKind::RightBrace => "RIGHT_BRACE"@,
        TokenKind::Comma => "COMMA"@,
        TokenKind::Dot => "DOT"@,
        TokenKind::Minus => "MINUS"@,
        TokenKind::Plus => "PLUS"@,
        TokenKind::Semicolon => "SEMICOLON"@,
        TokenKind::Slash => "SLASH"@,
        TokenKind::Star => "STAR"@,
        TokenKind::Bang => "BANG"@,
        TokenKind::BangEqual => "BANG_EQUAL"@,
        TokenKind::Equal => "EQUAL"@,
        TokenKind::EqualEqual => "EQUAL_EQUAL"@,
        TokenKind::Greater => "GREATER"@,
        TokenKind::GreaterEqual => "GREATER_EQUAL"@,
        TokenKind::Less => "LESS"@,
        TokenKind::LessEqual => "LESS_EQUAL"@,
        TokenKind::And => "AND"@,
        TokenKind::Class => "CLASS"@,
        TokenKind::Else => "ELSE"@,
        TokenKind::False => "FALSE"@,
        TokenKind::Fun => "FUN"@,
        TokenKind::For => "FOR"@,
        TokenKind::If => "IF"@,
        TokenKind::Nil => "NIL"@,
        TokenKind::Or => "OR"@,
        TokenKind::Print => "PRINT"@,
        TokenKind::Return => "RETURN"@,
        TokenKind::Super => "SUPER"@,
        TokenKind::This => "THIS"@,
        TokenKind::True => "TRUE"@,
        TokenKind::Var => "VAR"@,
        TokenKind::While => "WHILE"@,
        TokenKind::Eof => "EOF"@,
        TokenKind::StrLiteral => "STRING"@,
        TokenKind::NumLiteral => "NUMBER"@,
        TokenKind::Identifier => "IDENTIFIER"@,
    }
}

/// The keyword spelled by `word`, if any.
pub open spec fn keyword_kind(word: Seq<char>) -> Option<TokenKind> {
    if word == seq!['a', 'n', 'd'] {
        Some(TokenKind::And)
    } else if word == seq!['c', 'l', 'a', 's', 's'] {
        Some(TokenKind::Class)
    } else if word == seq!['e', 'l', 's', 'e'] {
        Some(TokenKind::Else)
    } else if word == seq!['f', 'a', 'l', 's', 'e'] {
        Some(TokenKind::False)
    } else if word == seq!['f', 'o', 'r'] {
        Some(TokenKind::For)
    } else if word == seq!['f', 'u', 'n'] {
        Some(TokenKind::Fun)
    } else if word == seq!['i', 'f'] {
        Some(TokenKind::If)
    } else if word == seq!['n', 'i', 'l'] {
        Some(TokenKind::Nil)
    } else if word == seq!['o', 'r'] {
        Some(TokenKind::Or)
    } else if word == seq!['p', 'r', 'i', 'n', 't'] {
        Some(TokenKind::Print)
    } else if word == seq!['r', 'e', 't', 'u', 'r', 'n'] {
        Some(TokenKind::Return)
    } else if word == seq!['s', 'u', 'p', 'e', 'r'] {
        Some(TokenKind::Super)
    } else if word == seq!['t', 'h', 'i', 's'] {
        Some(TokenKind::This)
    } else if word == seq!['t', 'r', 'u', 'e'] {
        Some(TokenKind::True)
    } else if word == seq!['v', 'a', 'r'] {
        Some(TokenKind::Var)
    } else if word == seq!['w', 'h', 'i', 'l', 'e'] {
        Some(TokenKind::While)
    } else {
        None
    }
}

/// A token of a kind that carries no text.
pub open spec fn plain_token(k: TokenKind) -> TokenView {
    TokenView { kind: k, text: Seq::empty(), value: Seq::empty() }
}

impl TokenView {
    /// The text a token stands for in the source: the fixed spelling of its kind,
    /// or the text it carries.
    pub open spec fn lexeme(self) -> Seq<char> {
        match self.kind {
            TokenKind::StrLiteral | TokenKind::NumLiteral | TokenKind::Identifier => self.text,
            _ => kind_lexeme(self.kind),
        }
    }
}

impl View for Token {
    type V = TokenView;

    open spec fn view(&self) -> TokenView {
        match self {
            Token::LeftParen => plain_token(TokenKind::LeftParen),
            Token::RightParen => plain_token(TokenKind::RightParen),
            Token::LeftBrace => plain_token(TokenKind::LeftBrace),
            Token::RightBrace => plain_token(TokenKind::RightBrace),
            Token::Comma => plain_token(TokenKind::Comma),
            Token::Dot => plain_token(TokenKind::Dot),
            Token::Minus => plain_token(TokenKind::Minus),
            Token::Plus => plain_token(TokenKind::Plus),
            Token::Semicolon => plain_token(TokenKind::Semicolon),
            Token::Slash => plain_token(TokenKind::Slash),
            Token::Star => plain_token(TokenKind::Star),
            Token::Bang => plain_token(TokenKind::Bang),
            Token::BangEqual => plain_token(TokenKind::BangEqual),
            Token::Equal => plain_token(TokenKind::Equal),
            Token::EqualEqual => plain_token(TokenKind::EqualEqual),
            Token::Greater => plain_token(TokenKind::Greater),
            Token::GreaterEqual => plain_token(TokenKind::GreaterEqual),
            Token::Less => plain_token(TokenKind::Less),
            Token::LessEqual => plain_token(TokenKind::LessEqual),
            Token::And => plain_token(TokenKind::And),
            Token::Class => plain_token(TokenKind::Class),
            Token::Else => plain_token(TokenKind::Else),
            Token::False => plain_token(TokenKind::False),
            Token::Fun => plain_token(TokenKind::Fun),
            Token::For => plain_token(TokenKind::For),
            Token::If => plain_token(TokenKind::If),
            Token::Nil => plain_token(TokenKind::Nil),
            Token::Or => plain_token(TokenKind::Or),
            Token::Print => plain_token(TokenKind::Print),
            Token::Return => plain_token(TokenKind::Return),
            Token::Super => plain_token(TokenKind::Super),
            Token::This => plain_token(TokenKind::This),
            Token::True => plain_token(TokenKind::True),
            Token::Var => plain_token(TokenKind::Var),
            Token::While => plain_token(TokenKind::While),
            Token::Eof => plain_token(TokenKind::Eof),
            Token::StrLiteral { lexeme, value } => TokenView {
                kind: TokenKind::StrLiteral,
                text: lexeme@,
                value: value@,
            },
            Token::NumLiteral { lexeme } => TokenView {
                kind: TokenKind::NumLiteral,
                text: lexeme@,
                value: Seq::empty(),
            },
            Token::Identifier { lexeme } => TokenView {
                kind: TokenKind::Identifier,
                text: lexeme@,
                value: Seq::empty(),
            },
        }
    }
}

impl Token {
    /// The kind of this token.
    pub fn kind(&self) -> (k: TokenKind)
        ensures
            k == self@.kind,
    {
        match self {
            Token::LeftParen => TokenKind::LeftParen,
            Token::RightParen => TokenKind::RightParen,
            Token::LeftBrace => TokenKind::LeftBrace,
            Token::RightBrace => TokenKind::RightBrace,
            Token::Comma => TokenKind::Comma,
            Token::Dot => TokenKind::Dot,
            Token::Minus => TokenKind::Minus,
            Token::Plus => TokenKind::Plus,
            Token::Semicolon => TokenKind::Semicolon,
            Token::Slash => TokenKind::Slash,
            Token::Star => TokenKind::Star,
            Token::Bang => TokenKind::Bang,
            Token::BangEqual => TokenKind::BangEqual,
            Token::Equal => TokenKind::Equal,
            Token::EqualEqual => TokenKind::EqualEqual,
            Token::Greater => TokenKind::Greater,
            Token::GreaterEqual => TokenKind::GreaterEqual,
            Token::Less => TokenKind::Less,
            Token::LessEqual => TokenKind::LessEqual,
            Token::And => TokenKind::And,
            Token::Class => TokenKind::Class,
            Token::Else => TokenKind::Else,
            Token::False => TokenKind::False,
            Token::Fun => TokenKind::Fun,
            Token::For => TokenKind::For,
            Token::If => TokenKind::If,
            Token::Nil => TokenKind::Nil,
            Token::Or => TokenKind::Or,
            Token::Print => TokenKind::Print,
            Token::Return => TokenKind::Return,
            Token::Super => TokenKind::Super,
            Token::This => TokenKind::This,
            Token::True => TokenKind::True,
            Token::Var => TokenKind::Var,
            Token::While => TokenKind::While,
            Token::Eof => TokenKind::Eof,
            Token::StrLiteral { .. } => TokenKind::StrLiteral,
            Token::NumLiteral { .. } => TokenKind::NumLiteral,
            Token::Identifier { .. } => TokenKind::Identifier,
        }
    }

    /// The token of a kind that carries no text.
    pub fn plain(k: TokenKind) -> (t: Token)
        requires
            k != TokenKind::StrLiteral,
            k != TokenKind::NumLiteral,
            k != TokenKind::Identifier,
        ensures
            t@ == plain_token(k),
    {
        match k {
            TokenKind::LeftParen => Token::LeftParen,
            TokenKind::RightParen => Token::RightParen,
            TokenKind::LeftBrace => Token::LeftBrace,
            TokenKind::RightBrace => Token::RightBrace,
            TokenKind::Comma => Token::Comma,
            TokenKind::Dot => Token::Dot,
            TokenKind::Minus => Token::Minus,
            TokenKind::Plus => Token::Plus,
            TokenKind::Semicolon => Token::Semicolon,
            TokenKind::Slash => Token::Slash,
            TokenKind::Star => Token::Star,
            TokenKind::Bang => Token::Bang,
            TokenKind::BangEqual => Token::BangEqual,
            TokenKind::Equal => Token::Equal,
            TokenKind::EqualEqual => Token::EqualEqual,
            TokenKind::Greater => Token::Greater,
            TokenKind::GreaterEqual => Token::GreaterEqual,
            TokenKind::Less => Token::Less,
            TokenKind::LessEqual => Token::LessEqual,
            TokenKind::And => Token::And,
            TokenKind::Class => Token::Class,
            TokenKind::Else => Token::Else,
            TokenKind::False => Token::False,
            TokenKind::Fun => Token::Fun,
            TokenKind::For => Token::For,
            TokenKind::If => Token::If,
            TokenKind::Nil => Token::Nil,
            TokenKind::Or => Token::Or,
            TokenKind::Print => Token::Print,
            TokenKind::Return => Token::Return,
            TokenKind::Super => Token::Super,
            TokenKind::This => Token::This,
            TokenKind::True => Token::True,
            TokenKind::Var => Token::Var,
            TokenKind::While => Token::While,
            TokenKind::Eof => Token::Eof,
            _ => Token::Eof,
        }
    }

    /// The keyword token spelled by `word`, if `word` is a keyword.
    pub fn try_from_word(word: &str) -> (r: Option<Token>)
        ensures
            r is Some <==> keyword_kind(word@) is Some,
            r matches Some(t) ==> t@ == plain_token(keyword_kind(word@).unwrap()),
    {
        let chars = crate::text::str_to_chars(word);
        match keyword_of(&chars) {
            Some(k) => Some(Token::plain(k)),
            None => None,
        }
    }

    /// The upper-case name of this token's kind.
    pub fn tpe(&self) -> (r: &str)
        ensures
            r@ == kind_name(self@.kind),
    {
        match self {
            Token::LeftParen => "LEFT_PAREN",
            Token::RightParen => "RIGHT_PAREN",
            Token::LeftBrace => "LEFT_BRACE",
            Token::RightBrace => "RIGHT_BRACE",
            Token::Comma => "COMMA",
            Token::Dot => "DOT",
            Token::Minus => "MINUS",
            Token::Plus => "PLUS",
            Token::Semicolon => "SEMICOLON",
            Token::Slash => "SLASH",
            Token::Star => "STAR",
            Token::Bang => "BANG",
            Token::BangEqual => "BANG_EQUAL",
            Token::Equal => "EQUAL",
            Token::EqualEqual => "EQUAL_EQUAL",
            Token::Greater => "GREATER",
            Token::GreaterEqual => "GREATER_EQUAL",
            Token::Less => "LESS",
            Token::LessEqual => "LESS_EQUAL",
            Token::And => "AND",
            Token::Class => "CLASS",
            Token::Else => "ELSE",
            Token::False => "FALSE",
            Token::Fun => "FUN",
            Token::For => "FOR",
            Token::If => "IF",
            Token::Nil => "NIL",
            Token::Or => "OR",
            Token::Print => "PRINT",
            Token::Return => "RETURN",
            Token::Super => "SUPER",
            Token::This => "THIS",
            Token::True => "TRUE",
            Token::Var => "VAR",
            Token::While => "WHILE",
            Token::Eof => "EOF",
            Token::StrLiteral { .. } => "STRING",
            Token::NumLiteral { .. } => "NUMBER",
            Token::Identifier { .. } => "IDENTIFIER",
        }
    }

    /// The text this token stands for (`Eof` stands for the empty text).
    pub fn lexeme(&self) -> (r: &str)
        ensures
            r@ == self@.lexeme(),
    {
        match self {
            Token::LeftParen => "(",
            Token::RightParen => ")",
            Token::LeftBrace => "{",
            Token::RightBrace => "}",
            Token::Comma => ",",
            Token::Dot => ".",
            Token::Minus => "-",
            Token::Plus => "+",
            Token::Semicolon => ";",
            Token::Slash => "/",
            Token::Star => "*",
            Token::Bang => "!",
            Token::BangEqual => "!=",
            Token::Equal => "=",
            Token::EqualEqual => "==",
            Token::Greater => ">",
            Token::GreaterEqual => ">=",
            Token::Less => "<",
            Token::LessEqual => "<=",
            Token::And => "and",
            Token::Class => "class",
            Token::Else => "else",
            Token::False => "false",
            Token::Fun => "fun",
            Token::For => "for",
            Token::If => "if",
            Token::Nil => "nil",
            Token::Or => "or",
            Token::Print => "print",
            Token::Return => "return",
            Token::Super => "super",
            Token::This => "this",
            Token::True => "true",
            Token::Var => "var",
            Token::While => "while",
            Token::Eof => "",
            Token::StrLiteral { lexeme, value: _ } => lexeme.as_str(),
            Token::NumLiteral { lexeme } => lexeme.as_str(),
            Token::Identifier { lexeme } => lexeme.as_str(),
        }
    }
}

/// How a token is listed: its kind's name, its lexeme, and its literal value
/// (`null` where it has none).
pub open spec fn token_text(t: TokenView) -> Seq<char> {
    match t.kind {
        TokenKind::StrLiteral => "STRING "@ + t.text + " "@ + t.value,
        TokenKind::Identifier => "IDENTIFIER "@ + t.text + " null"@,
        _ => kind_name(t.kind) + " "@ + t.lexeme() + " null"@,
    }
}

impl Token {
    /// How this token is listed. A number literal has no listing here: its
    /// value is shown in floating-point formatting, left to the host.
    pub fn render(&self) -> (r: Option<String>)
        ensures
            match self@.kind {
                TokenKind::NumLiteral => r is None,
                _ => r matches Some(t) && t@ == token_text(self@),
            },
    {
        match self {
            Token::StrLiteral { lexeme, value } => {
                let mut r = String::from_str("STRING ");
                r.append(lexeme.as_str());
                r.append(" ");
                r.append(value.as_str());
                Some(r)
            },
            Token::NumLiteral { .. } => None,
            Token::Identifier { lexeme } => {
                let mut r = String::from_str("IDENTIFIER ");
                r.append(lexeme.as_str());
                r.append(" null");
                Some(r)
            },
            _ => {
                let mut r = String::from_str(self.tpe());
                r.append(" ");
                r.append(self.lexeme());
                r.append(" null");
                Some(r)
            },
        }
    }
}

/// Whether `t` holds exactly the characters `w`.
fn chars_equal(t: &Vec<char>, w: &[char]) -> (r: bool)
    ensures
        r == (t@ == w@),
{
    if t.len() != w.len() {
        return false;
    }
    let mut i: usize = 0;
    while i < t.len()
        invariant
            t.len() == w.len(),
            i <= t.len(),
            forall|j: int| 0 <= j < i ==> t@[j] == w@[j],
        decreases t.len() - i,
    {
        if t[i] != w[i] {
            return false;
        }
        i = i + 1;
    }
    assert(t@ =~= w@);
    true
}

/// The keyword kind spelled by `word`, if any.
pub fn keyword_of(word: &Vec<char>) -> (r: Option<TokenKind>)
    ensures
        r == keyword_kind(word@),
{
    let w: [char; 3] = ['a', 'n', 'd'];
    if chars_equal(word, w.as_slice()) {
        assert(w@ =~= seq!['a', 'n', 'd']);
        return Some(TokenKind::And);
    }
    assert(w@ =~= seq!['a', 'n', 'd']);
    let w: [char; 5] = ['c', 'l', 'a', 's', 's'];
    if chars_equal(word, w.as_slice()) {
        assert(w@ =~= seq!['c', 'l', 'a', 's', 's']);
        return Some(TokenKind::Class);
    }
    assert(w@ =~= seq!['c', 'l', 'a', 's', 's']);
    let w: [char; 4] = ['e', 'l', 's', 'e'];
    if chars_equal(word, w.as_slice()) {
        assert(w@ =~= seq!['e', 'l', 's', 'e']);
        return Some(TokenKind::Else);
    }
    assert(w@ =~= seq!['e', 'l', 's', 'e']);
    let w: [char; 5] = ['f', 'a', 'l', 's', 'e'];
    if chars_equal(word, w.as_slice()) {
        assert(w@ =~= seq!['f', 'a', 'l', 's', 'e']);
        return Some(TokenKind::False);
    }
    assert(w@ =~= seq!['f', 'a', 'l', 's', 'e']);
    let w: [char; 3] = ['f', 'o', 'r'];
    if chars_equal(word, w.as_slice()) {
        assert(w@ =~= seq!['f', 'o', 'r']);
        return Some(TokenKind::For);
    }
    assert(w@ =~= seq!['f', 'o', 'r']);
    let w: [char; 3] = ['f', 'u', 'n'];
    if chars_equal(word, w.as_slice()) {
        assert(w@ =~= seq!['f', 'u', 'n']);
        return Some(TokenKind::Fun);
    }
    assert(w@ =~= seq!['f', 'u', 'n']);
    let w: [char; 2] = ['i', 'f'];
    if chars_equal(word, w.as_slice()) {
        assert(w@ =~= seq!['i', 'f']);
        return Some(TokenKind::If);
    }
    assert(w@ =~= seq!['i', 'f']);
    let w: [char; 3] = ['n', 'i', 'l'];
    if chars_equal(word, w.as_slice()) {
        assert(w@ =~= seq!['n', 'i', 'l']);
        return Some(TokenKind::Nil);
    }
    assert(w@ =~= seq!['n', 'i', 'l']);
    let w: [char; 2] = ['o', 'r'];
    if chars_equal(word, w.as_slice()) {
        assert(w@ =~= seq!['o', 'r']);
        return Some(TokenKind::Or);
    }
    assert(w@ =~= seq!['o', 'r']);
    let w: [char; 5] = ['p', 'r', 'i', 'n', 't'];
    if chars_equal(word, w.as_slice()) {
        assert(w@ =~= seq!['p', 'r', 'i', 'n', 't']);
        return Some(TokenKind::Print);
    }
    assert(w@ =~= seq!['p', 'r', 'i', 'n', 't']);
    let w: [char; 6] = ['r', 'e', 't', 'u', 'r', 'n'];
    if chars_equal(word, w.as_slice()) {
        assert(w@ =~= seq!['r', 'e', 't', 'u', 'r', 'n']);
        return Some(TokenKind::Return);
    }
    assert(w@ =~= seq!['r', 'e', 't', 'u', 'r', 'n']);
    let w: [char; 5] = ['s', 'u', 'p', 'e', 'r'];
    if chars_equal(word, w.as_slice()) {
        assert(w@ =~= seq!['s', 'u', 'p', 'e', 'r']);
        return Some(TokenKind::Super);
    }
    assert(w@ =~= seq!['s', 'u', 'p', 'e', 'r']);
    let w: [char; 4] = ['t', 'h', 'i', 's'];
    if chars_equal(word, w.as_slice()) {
        assert(w@ =~= seq!['t', 'h', 'i', 's']);
        return Some(TokenKind::This);
    }
    assert(w@ =~= seq!['t', 'h', 'i', 's']);
    let w: [char; 4] = ['t', 'r', 'u', 'e'];
    if chars_equal(word, w.as_slice()) {
        assert(w@ =~= seq!['t', 'r', 'u', 'e']);
        return Some(TokenKind::True);
    }
    assert(w@ =~= seq!['t', 'r', 'u', 'e']);
    let w: [char; 3] = ['v', 'a', 'r'];
    if chars_equal(word, w.as_slice()) {
        assert(w@ =~= seq!['v', 'a', 'r']);
        return Some(TokenKind::Var);
    }
    assert(w@ =~= seq!['v', 'a', 'r']);
    let w: [char; 5] = ['w', 'h', 'i', 'l', 'e'];
    if chars_equal(word, w.as_slice()) {
        assert(w@ =~= seq!['w', 'h', 'i', 'l', 'e']);
        return Some(TokenKind::While);
    }
    assert(w@ =~= seq!['w', 'h', 'i', 'l', 'e']);
    None
}

/// A token together with the line it ends on.
#[derive(Debug)]
pub struct TokenInfo {
    pub token: Token,
    pub line: u32,
}

/// A token and its line, as plain values.
pub struct TokenInfoView {
    pub token: TokenView,
    pub line: u32,
}

impl View for TokenInfo {
    type V = TokenInfoView;

    open spec fn view(&self) -> TokenInfoView {
        TokenInfoView { token: self.token@, line: self.line }
    }
}

impl TokenInfo {
    pub fn new(token: Token, line: u32) -> (r: TokenInfo)
        ensures
            r@ == (TokenInfoView { token: token@, line: line }),
    {
        TokenInfo { token, line }
    }
}

/// Where the scanner stands: the first character of the current lexeme, the
/// next character to read, and the current line.
#[derive(Clone, Copy, Debug)]
pub struct ScannerPosition {
    pub start: usize,
    pub current: usize,
    pub line: u32,
}

/// A scanner position as plain integers.
pub struct PosView {
    pub start: int,
    pub current: int,
    pub line: int,
}

impl View for ScannerPosition {
    type V = PosView;

    open spec fn view(&self) -> PosView {
        PosView { start: self.start as int, current: self.current as int, line: self.line as int }
    }
}

impl ScannerPosition {
    /// The position one character further on.
    pub fn next_pos(&self) -> (r: Self)
        requires
            self.current < usize::MAX,
        ensures
            r == (ScannerPosition { current: (self.current + 1) as usize, ..*self }),
    {
        Self { current: self.current + 1, ..*self }
    }

    /// The position on the next line.
    pub fn next_line(&self) -> (r: Self)
        requires
            self.line < u32::MAX,
        ensures
            r == (ScannerPosition { line: (self.line + 1) as u32, ..*self }),
    {
        Self { line: self.line + 1, ..*self }
    }

    /// The position with a new lexeme starting at the current character.
    pub fn at_start(&self) -> (r: Self)
        ensures
            r == (ScannerPosition { start: self.current, ..*self }),
    {
        Self { start: self.current, ..*self }
    }
}

} // verus!
