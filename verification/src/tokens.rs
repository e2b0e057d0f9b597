//! The lexical token model: token kinds, tokens with optional lexeme text and
//! a source line, and the reserved-word table.
use vstd::prelude::*;
use vstd::string::*;

verus! {

/// The closed set of token kinds the scanner can emit.
#[derive(Clone, Copy, Debug, PartialEq, Eq, Structural)]
pub enum TokenType {
    Slash,
    Comment,
    LeftBracket,
    RightBracket,
    LeftSquareBracket,
    RightSquareBracket,
    LeftCurlyBracket,
    RightCurlyBracket,
    Plus,
    Minus,
    Star,
    Equals,
    DoubleEquals,
    Bang,
    Percent,
    Colon,
    Semicolon,
    Dot,
    LessThan,
    GreaterThan,
    LessEquals,
    GreaterEquals,
    BangEquals,
    SingleQuote,
    AltQuote,
    String,
    Number,
    Identifier,
    True,
    False,
    And,
    Or,
    If,
    Let,
    Package,
    Function,
    Print,
    EOF,
}

/// The descriptive name `map` returns for each token kind.
pub open spec fn spec_token_name(t: TokenType) -> Seq<char> {
    match t {
        TokenType::Slash => "Slash"@,
        TokenType::Comment => "Comment"@,
        TokenType::LeftBracket => "LeftBracket"@,
        TokenType::RightBracket => "RightBracket"@,
        TokenType::LeftSquareBracket => "LeftSquareBracket"@,
        TokenType::RightSquareBracket => "RightSquareBracket"@,
        TokenType::LeftCurlyBracket => "LeftCurlyBracket"@,
        TokenType::RightCurlyBracket => "RightCurlyBracket"@,
        TokenType::Plus => "Plus"@,
        TokenType::Minus => "Minus"@,
        TokenType::Star => "Star"@,
        TokenType::Equals => "Equals"@,
        TokenType::DoubleEquals => "DoubleEquals"@,
        TokenType::Bang => "Bang"@,
        TokenType::BangEquals => "BangEquals"@,
        TokenType::Percent => "Percent"@,
        TokenType::Colon => "Colon"@,
        TokenType::Semicolon => "Semicolon"@,
        TokenType::Package => "Package"@,
        TokenType::Function => "Function"@,
        TokenType::Print => "Print"@,
        TokenType::LessThan => "LessThan"@,
        TokenType::GreaterThan => "GreaterThan"@,
        TokenType::LessEquals => "LessThanOrEquals"@,
        TokenType::GreaterEquals => "GreaterThanOrEquals"@,
        TokenType::SingleQuote => "SingleQuote"@,
        TokenType::AltQuote => "AltQuote"@,
        TokenType::String => "String"@,
        TokenType::Number => "Number"@,
        TokenType::Dot => "Dot"@,
        TokenType::And => "And"@,
        TokenType::Or => "Or"@,
        TokenType::If => "If"@,
        TokenType::Let => "Let"@,
        TokenType::Identifier => "Identifier"@,
        TokenType::EOF => "End of File"@,
        TokenType::True => "True"@,
        TokenType::False => "False"@,
    }
}

impl TokenType {
    /// A human-readable name for the token kind.
    pub fn map(&self) -> (r: String)
        ensures
            r@ == spec_token_name(*self),
    {
        match self {
            TokenType::Slash => String::from_str("Slash"),
            TokenType::Comment => String::from_str("Comment"),
            TokenType::LeftBracket => String::from_str("LeftBracket"),
            TokenType::RightBracket => String::from_str("RightBracket"),
            TokenType::LeftSquareBracket => String::from_str("LeftSquareBracket"),
            TokenType::RightSquareBracket => String::from_str("RightSquareBracket"),
            TokenType::LeftCurlyBracket => String::from_str("LeftCurlyBracket"),
            TokenType::RightCurlyBracket => String::from_str("RightCurlyBracket"),
            TokenType::Plus => String::from_str("Plus"),
            TokenType::Minus => String::from_str("Minus"),
            TokenType::Star => String::from_str("Star"),
            TokenType::Equals => String::from_str("Equals"),
            TokenType::DoubleEquals => String::from_str("DoubleEquals"),
            TokenType::Bang => String::from_str("Bang"),
            TokenType::BangEquals => String::from_str("BangEquals"),
            TokenType::Percent => String::from_str("Percent"),
            TokenType::Colon => String::from_str("Colon"),
            TokenType::Semicolon => String::from_str("Semicolon"),
            TokenType::Package => String::from_str("Package"),
            TokenType::Function => String::from_str("Function"),
            TokenType::Print => String::from_str("Print"),
            TokenType::LessThan => String::from_str("LessThan"),
            TokenType::GreaterThan => String::from_str("GreaterThan"),
            TokenType::LessEquals => String::from_str("LessThanOrEquals"),
            TokenType::GreaterEquals => String::from_str("GreaterThanOrEquals"),
            TokenType::SingleQuote => String::from_str("SingleQuote"),
            TokenType::AltQuote => String::from_str("AltQuote"),
            TokenType::String => String::from_str("String"),
            TokenType::Number => String::from_str("Number"),
            TokenType::Dot => String::from_str("Dot"),
            TokenType::And => String::from_str("And"),
            TokenType::Or => String::from_str("Or"),
            TokenType::If => String::from_str("If"),
            TokenType::Let => String::from_str("Let"),
            TokenType::Identifier => String::from_str("Identifier"),
            TokenType::EOF => String::from_str("End of File"),
            TokenType::True => String::from_str("True"),
            TokenType::False => String::from_str("False"),
        }
    }
}

/// Mathematical model of a token: its kind, the optional lexeme text, and the
/// 1-based source line it was read on.
pub struct TokenM {
    pub kind: TokenType,
    pub text: Option<Seq<char>>,
    pub line: nat,
}

/// A lexical token. `lexeme` is present for literals and identifiers, whose
/// text cannot be recovered from the kind alone.
#[derive(Debug)]
pub struct Token {
    pub token_type: TokenType,
    pub lexeme: Option<String>,
    pub line: usize,
}

impl View for Token {
    type V = TokenM;

    open spec fn view(&self) -> TokenM {
        TokenM {
            kind: self.token_type,
            text: match self.lexeme {
                Option::Some(s) => Option::Some(s@),
                Option::None => Option::None,
            },
            line: self.line as nat,
        }
    }
}

impl DeepView for Token {
    type V = TokenM;

    open spec fn deep_view(&self) -> TokenM {
        self.view()
    }
}

impl Clone for Token {
    fn clone(&self) -> (t: Token)
        ensures
            t@ == self@,
    {
        Token {
            token_type: self.token_type,
            lexeme: match &self.lexeme {
                Option::Some(s) => Option::Some(s.clone()),
                Option::None => Option::None,
            },
            line: self.line,
        }
    }
}

impl Token {
    pub fn new(token_type: TokenType, lexeme: Option<String>, line: usize) -> (t: Token)
        ensures
            t@ == (TokenM {
                kind: token_type,
                text: match lexeme {
                    Option::Some(s) => Option::Some(s@),
                    Option::None => Option::None,
                },
                line: line as nat,
            }),
    {
        Token { token_type, lexeme, line }
    }

    pub fn token_type(&self) -> (t: TokenType)
        ensures
            t == self@.kind,
    {
        self.token_type
    }

    /// The lexeme if one was recorded, and the kind's descriptive name otherwise.
    pub fn access_lexeme(&self) -> (r: String)
        ensures
            r@ == spec_access_lexeme(self@),
    {
        match &self.lexeme {
            Option::None => self.token_type.map(),
            Option::Some(val) => val.clone(),
        }
    }
}

/// What `access_lexeme` returns for a token.
pub open spec fn spec_access_lexeme(t: TokenM) -> Seq<char> {
    match t.text {
        Option::Some(s) => s,
        Option::None => spec_token_name(t.kind),
    }
}

/// The reserved-word table of the language.
pub open spec fn keyword_of(s: Seq<char>) -> Option<TokenType> {
    if s == "and"@ {
        Option::Some(TokenType::And)
    } else if s == "or"@ {
        Option::Some(TokenType::Or)
    } else if s == "if"@ {
        Option::Some(TokenType::If)
    } else if s == "let"@ {
        Option::Some(TokenType::Let)
    } else if s == "fn"@ {
        Option::Some(TokenType::Function)
    } else if s == "package"@ {
        Option::Some(TokenType::Package)
    } else if s == "print"@ {
        Option::Some(TokenType::Print)
    } else if s == "true"@ {
        Option::Some(TokenType::True)
    } else if s == "false"@ {
        Option::Some(TokenType::False)
    } else {
        Option::None
    }
}

/// Lookup in an association list, later entries shadowing earlier ones.
pub open spec fn assoc_lookup(entries: Seq<(Seq<char>, TokenType)>, key: Seq<char>) -> Option<
    TokenType,
>
    decreases entries.len(),
{
    if entries.len() == 0 {
        Option::None
    } else if entries.last().0 == key {
        Option::Some(entries.last().1)
    } else {
        assoc_lookup(entries.drop_last(), key)
    }
}

/// The standard contents of the reserved-word table.
pub open spec fn spec_keyword_entries() -> Seq<(Seq<char>, TokenType)> {
    seq![
        ("and"@, TokenType::And),
        ("or"@, TokenType::Or),
        ("if"@, TokenType::If),
        ("let"@, TokenType::Let),
        ("fn"@, TokenType::Function),
        ("package"@, TokenType::Package),
        ("print"@, TokenType::Print),
        ("true"@, TokenType::True),
        ("false"@, TokenType::False),
    ]
}

/// The table mapping reserved words to their keyword token kinds.
pub struct ReservedKeywords {
    pub dict: Vec<(String, TokenType)>,
}

impl View for ReservedKeywords {
    type V = Seq<(Seq<char>, TokenType)>;

    open spec fn view(&self) -> Seq<(Seq<char>, TokenType)> {
        Seq::new(self.dict@.len(), |i: int| (self.dict@[i].0@, self.dict@[i].1))
    }
}

impl ReservedKeywords {
    /// A table filled with the language's reserved words.
    pub fn new() -> (s: ReservedKeywords)
        ensures
            s@ == spec_keyword_entries(),
    {
        let mut s = ReservedKeywords { dict: Vec::new() };
        s.fill();
        assert(s@ =~= spec_keyword_entries());
        s
    }

    fn fill(&mut self)
        requires
            old(self)@.len() == 0,
        ensures
            final(self)@ =~= spec_keyword_entries(),
    {
        self.insert("and", TokenType::And);
        self.insert("or", TokenType::Or);
        self.insert("if", TokenType::If);
        self.insert("let", TokenType::Let);
        self.insert("fn", TokenType::Function);
        self.insert("package", TokenType::Package);
        self.insert("print", TokenType::Print);
        self.insert("true", TokenType::True);
        self.insert("false", TokenType::False);
    }

    pub fn insert(&mut self, key: &str, value: TokenType)
        ensures
            final(self)@ == old(self)@.push((key@, value)),
    {
        self.dict.push((String::from_str(key), value));
        assert(self@ =~= old(self)@.push((key@, value)));
    }

    pub fn get(&self, key: String) -> (r: Option<TokenType>)
        ensures
            r == assoc_lookup(self@, key@),
    {
        let mut i: usize = self.dict.len();
        assert(self@.take(self.dict@.len() as int) =~= self@);
        while i > 0
            invariant
                i <= self.dict.len(),
                assoc_lookup(self@, key@) == assoc_lookup(self@.take(i as int), key@),
            decreases i,
        {
            i = i - 1;
            assert(self@.take(i + 1).drop_last() =~= self@.take(i as int));
            if self.dict[i].0 == key {
                return Option::Some(self.dict[i].1);
            }
        }
        assert(self@.take(0) =~= Seq::<(Seq<char>, TokenType)>::empty());
        Option::None
    }
}

/// The standard table looks words up exactly as `keyword_of` does.
pub proof fn lemma_keyword_table_lookup(key: Seq<char>)
    ensures
        assoc_lookup(spec_keyword_entries(), key) == keyword_of(key),
{
    reveal_strlit("and");
    reveal_strlit("or");
    reveal_strlit("if");
    reveal_strlit("let");
    reveal_strlit("fn");
    reveal_strlit("package");
    reveal_strlit("print");
    reveal_strlit("true");
    reveal_strlit("false");
    let e9 = spec_keyword_entries();
    let e8 = seq![
        ("and"@, TokenType::And),
        ("or"@, TokenType::Or),
        ("if"@, TokenType::If),
        ("let"@, TokenType::Let),
        ("fn"@, TokenType::Function),
        ("package"@, TokenType::Package),
        ("print"@, TokenType::Print),
        ("true"@, TokenType::True),
    ];
    let e7 = e8.drop_last();
    let e6 = e7.drop_last();
    let e5 = e6.drop_last();
    let e4 = e5.drop_last();
    let e3 = e4.drop_last();
    let e2 = e3.drop_last();
    let e1 = e2.drop_last();
    let e0 = e1.drop_last();
    assert(e9.drop_last() =~= e8);
    assert(assoc_lookup(e9, key) == if key == "false"@ {
        Option::Some(TokenType::False)
    } else {
        assoc_lookup(e8, key)
    });
    assert(assoc_lookup(e8, key) == if key == "true"@ {
        Option::Some(TokenType::True)
    } else {
        assoc_lookup(e7, key)
    });
    assert(assoc_lookup(e7, key) == if key == "print"@ {
        Option::Some(TokenType::Print)
    } else {
        assoc_lookup(e6, key)
    });
    assert(assoc_lookup(e6, key) == if key == "package"@ {
        Option::Some(TokenType::Package)
    } else {
        assoc_lookup(e5, key)
    });
    assert(assoc_lookup(e5, key) == if key == "fn"@ {
        Option::Some(TokenType::Function)
    } else {
        assoc_lookup(e4, key)
    });
    assert(assoc_lookup(e4, key) == if key == "let"@ {
        Option::Some(TokenType::Let)
    } else {
        assoc_lookup(e3, key)
    });
    assert(assoc_lookup(e3, key) == if key == "if"@ {
        Option::Some(TokenType::If)
    } else {
        assoc_lookup(e2, key)
    });
    assert(assoc_lookup(e2, key) == if key == "or"@ {
        Option::Some(TokenType::Or)
    } else {
        assoc_lookup(e1, key)
    });
    assert(assoc_lookup(e1, key) == if key == "and"@ {
        Option::Some(TokenType::And)
    } else {
        assoc_lookup(e0, key)
    });
    assert(e0.len() == 0);
    assert("and"@[0] == 'a' && "or"@[0] == 'o' && "if"@[0] == 'i' && "let"@[0] == 'l' && "fn"@[0]
        == 'f' && "package"@[0] == 'p' && "print"@[0] == 'p' && "true"@[0] == 't' && "false"@[0]
        == 'f');
    assert("package"@[1] == 'a' && "print"@[1] == 'r');
    assert("and"@.len() == 3 && "or"@.len() == 2 && "if"@.len() == 2 && "let"@.len() == 3
        && "fn"@.len() == 2 && "package"@.len() == 7 && "print"@.len() == 5 && "true"@.len() == 4
        && "false"@.len() == 5);
    assert("and"@ != "or"@ && "and"@ != "if"@ && "and"@ != "let"@ && "and"@ != "fn"@ && "and"@
        != "package"@ && "and"@ != "print"@ && "and"@ != "true"@ && "and"@ != "false"@);
    assert("or"@ != "if"@ && "or"@ != "let"@ && "or"@ != "fn"@ && "or"@ != "package"@ && "or"@
        != "print"@ && "or"@ != "true"@ && "or"@ != "false"@);
    assert("if"@ != "let"@ && "if"@ != "fn"@ && "if"@ != "package"@ && "if"@ != "print"@ && "if"@
        != "true"@ && "if"@ != "false"@);
    assert("let"@ != "fn"@ && "let"@ != "package"@ && "let"@ != "print"@ && "let"@ != "true"@
        && "let"@ != "false"@);
    assert("fn"@ != "package"@ && "fn"@ != "print"@ && "fn"@ != "true"@ && "fn"@ != "false"@);
    assert("package"@ != "print"@ && "package"@ != "true"@ && "package"@ != "false"@);
    assert("print"@ != "true"@ && "print"@ != "false"@);
    assert("true"@ != "false"@);
}

} // verus!
