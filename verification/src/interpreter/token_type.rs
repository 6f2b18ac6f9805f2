use vstd::prelude::*;

verus! {

/// The category of a lexeme. The literal cases carry the text they were read from.
#[derive(Debug, PartialEq)]
#[allow(unused)]
pub enum TokenType {
    // Single character tokens
    LeftParen,
    RightParen,
    LeftBrace,
    RightBrace,
    Comma,
    Dot,
    Minus,
    Plus,
    Semicolon,
    Slash,
    Star,
    // One or two character tokens
    Bang,
    BangEqual,
    Equal,
    EqualEqual,
    Greater,
    GreaterEqual,
    Less,
    LessEqual,
    // Literals
    Identifier(String),
    String(String),
    /// A number, held as the decimal literal that was read: digits, and optionally a point
    /// followed by more digits.
    Number(String),
    // Keywords
    And,
    Class,
    Else,
    False,
    Fun,
    For,
    If,
    Nil,
    Or,
    Print,
    Return,
    Super,
    This,
    True,
    Var,
    While,
    Eof,
}

/// The mathematical value of a [`TokenType`]: the same cases, with texts as sequences.
pub enum Kind {
    LeftParen,
    RightParen,
    LeftBrace,
    RightBrace,
    Comma,
    Dot,
    Minus,
    Plus,
    Semicolon,
    Slash,
    Star,
    Bang,
    BangEqual,
    Equal,
    EqualEqual,
    Greater,
    GreaterEqual,
    Less,
    LessEqual,
    Identifier(Seq<char>),
    String(Seq<char>),
    Number(Seq<char>),
    And,
    Class,
    Else,
    False,
    Fun,
    For,
    If,
    Nil,
    Or,
    Print,
    Return,
    Super,
    This,
    True,
    Var,
    While,
    Eof,
}

impl View for TokenType {
    type V = Kind;

    open spec fn view(&self) -> Kind {
        match self {
            TokenType::LeftParen => Kind::LeftParen,
            TokenType::RightParen => Kind::RightParen,
            TokenType::LeftBrace => Kind::LeftBrace,
            TokenType::RightBrace => Kind::RightBrace,
            TokenType::Comma => Kind::Comma,
            TokenType::Dot => Kind::Dot,
            TokenType::Minus => Kind::Minus,
            TokenType::Plus => Kind::Plus,
            TokenType::Semicolon => Kind::Semicolon,
            TokenType::Slash => Kind::Slash,
            TokenType::Star => Kind::Star,
            TokenType::Bang => Kind::Bang,
            TokenType::BangEqual => Kind::BangEqual,
            TokenType::Equal => Kind::Equal,
            TokenType::EqualEqual => Kind::EqualEqual,
            TokenType::Greater => Kind::Greater,
            TokenType::GreaterEqual => Kind::GreaterEqual,
            TokenType::Less => Kind::Less,
            TokenType::LessEqual => Kind::LessEqual,
            TokenType::Identifier(text) => Kind::Identifier(text@),
            TokenType::String(text) => Kind::String(text@),
            TokenType::Number(text) => Kind::Number(text@),
            TokenType::And => Kind::And,
            TokenType::Class => Kind::Class,
            TokenType::Else => Kind::Else,
            TokenType::False => Kind::False,
            TokenType::Fun => Kind::Fun,
            TokenType::For => Kind::For,
            TokenType::If => Kind::If,
            TokenType::Nil => Kind::Nil,
            TokenType::Or => Kind::Or,
            TokenType::Print => Kind::Print,
            TokenType::Return => Kind::Return,
            TokenType::Super => Kind::Super,
            TokenType::This => Kind::This,
            TokenType::True => Kind::True,
            TokenType::Var => Kind::Var,
            TokenType::While => Kind::While,
            TokenType::Eof => Kind::Eof,
        }
    }
}

/// The keyword that `word` spells, if it is a reserved word.
pub open spec fn keyword(word: Seq<char>) -> Option<Kind> {
    if word == "and"@ {
        Some(Kind::And)
    } else if word == "class"@ {
        Some(Kind::Class)
    } else if word == "else"@ {
        Some(Kind::Else)
    } else if word == "false"@ {
        Some(Kind::False)
    } else if word == "fun"@ {
        Some(Kind::Fun)
    } else if word == "for"@ {
        Some(Kind::For)
    } else if word == "if"@ {
        Some(Kind::If)
    } else if word == "nil"@ {
        Some(Kind::Nil)
    } else if word == "or"@ {
        Some(Kind::Or)
    } else if word == "print"@ {
        Some(Kind::Print)
    } else if word == "return"@ {
        Some(Kind::Return)
    } else if word == "super"@ {
        Some(Kind::Super)
    } else if word == "this"@ {
        Some(Kind::This)
    } else if word == "true"@ {
        Some(Kind::True)
    } else if word == "var"@ {
        Some(Kind::Var)
    } else if word == "while"@ {
        Some(Kind::While)
    } else {
        None
    }
}

/// What a maximal run of letters, digits and underscores stands for: its keyword, or else an
/// identifier of that name.
pub open spec fn word_kind(word: Seq<char>) -> Kind {
    match keyword(word) {
        Some(kind) => kind,
        None => Kind::Identifier(word),
    }
}

/// Whether `word` and `spelling` hold the same characters.
fn spells(word: &String, spelling: &str) -> (r: bool)
    ensures
        r == (word@ == spelling@),
{
    let other = String::from_str(spelling);
    *word == other
}

impl TokenType {
    /// Looks `word` up in the table of reserved words.
    pub fn keyword(word: &String) -> (r: Option<TokenType>)
        ensures
            r is Some == keyword(word@) is Some,
            r is Some ==> r->0@ == keyword(word@)->0,
    {
        if spells(word, "and") {
            Some(TokenType::And)
        } else if spells(word, "class") {
            Some(TokenType::Class)
        } else if spells(word, "else") {
            Some(TokenType::Else)
        } else if spells(word, "false") {
            Some(TokenType::False)
        } else if spells(word, "fun") {
            Some(TokenType::Fun)
        } else if spells(word, "for") {
            Some(TokenType::For)
        } else if spells(word, "if") {
            Some(TokenType::If)
        } else if spells(word, "nil") {
            Some(TokenType::Nil)
        } else if spells(word, "or") {
            Some(TokenType::Or)
        } else if spells(word, "print") {
            Some(TokenType::Print)
        } else if spells(word, "return") {
            Some(TokenType::Return)
        } else if spells(word, "super") {
            Some(TokenType::Super)
        } else if spells(word, "this") {
            Some(TokenType::This)
        } else if spells(word, "true") {
            Some(TokenType::True)
        } else if spells(word, "var") {
            Some(TokenType::Var)
        } else if spells(word, "while") {
            Some(TokenType::While)
        } else {
            None
        }
    }

    /// The token type of a word: its keyword, or else an identifier that takes the word over.
    pub fn of_word(word: String) -> (r: TokenType)
        ensures
            r@ == word_kind(word@),
    {
        match TokenType::keyword(&word) {
            Some(kind) => kind,
            None => TokenType::Identifier(word),
        }
    }
}

} // verus!
