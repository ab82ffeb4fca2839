//! A small C-like surface language: a lexer, a parser for variable
//! declarations, and a straight-line compiler to bytecode.

use crate::value::Value;
use crate::vm::OpCode;
use vstd::prelude::*;
use vstd::string::StringSliceAdditionalSpecFns;
use vstd::string::StrSliceExecFns;

verus! {

broadcast use vstd::string::group_string_axioms;

/// A surface token.
#[derive(Debug, Clone, PartialEq, Eq)]
pub enum Token {
    IntKeyword,
    FunctionKeyword,
    IfKeyword,
    ElseKeyword,
    ReturnKeyword,
    Identifier(String),
    Integer(i32),
    LParen,
    RParen,
    LBrace,
    RBrace,
    Comma,
    Semicolon,
    Colon,
    OpAdd,
    OpSub,
    OpMul,
    OpDiv,
    OpGt,
    OpLt,
    Assign,
}

/// The mathematical shape of a token: identifiers as character sequences,
/// integers unbounded.
pub enum TokenView {
    IntKeyword,
    FunctionKeyword,
    IfKeyword,
    ElseKeyword,
    ReturnKeyword,
    Identifier(Seq<char>),
    Integer(int),
    LParen,
    RParen,
    LBrace,
    RBrace,
    Comma,
    Semicolon,
    Colon,
    OpAdd,
    OpSub,
    OpMul,
    OpDiv,
    OpGt,
    OpLt,
    Assign,
}

impl View for Token {
    type V = TokenView;

    open spec fn view(&self) -> TokenView {
        match self {
            Token::IntKeyword => TokenView::IntKeyword,
            Token::FunctionKeyword => TokenView::FunctionKeyword,
            Token::IfKeyword => TokenView::IfKeyword,
            Token::ElseKeyword => TokenView::ElseKeyword,
            Token::ReturnKeyword => TokenView::ReturnKeyword,
            Token::Identifier(s) => TokenView::Identifier(s@),
            Token::Integer(n) => TokenView::Integer(*n as int),
            Token::LParen => TokenView::LParen,
            Token::RParen => TokenView::RParen,
            Token::LBrace => TokenView::LBrace,
            Token::RBrace => TokenView::RBrace,
            Token::Comma => TokenView::Comma,
            Token::Semicolon => TokenView::Semicolon,
            Token::Colon => TokenView::Colon,
            Token::OpAdd => TokenView::OpAdd,
            Token::OpSub => TokenView::OpSub,
            Token::OpMul => TokenView::OpMul,
            Token::OpDiv => TokenView::OpDiv,
            Token::OpGt => TokenView::OpGt,
            Token::OpLt => TokenView::OpLt,
            Token::Assign => TokenView::Assign,
        }
    }
}

impl DeepView for Token {
    type V = TokenView;

    open spec fn deep_view(&self) -> TokenView {
        self.view()
    }
}

/// What can stop the lexer.
#[derive(Debug, Clone, Copy, PartialEq, Eq, Structural)]
pub enum LexError {
    /// A byte that begins no token.
    UnexpectedCharacter,
    /// A numeral too large for a 32-bit integer token.
    NumberTooLarge,
}

/// ASCII decimal digit.
pub open spec fn is_digit(b: u8) -> bool {
    48 <= b <= 57
}

/// ASCII letter.
pub open spec fn is_letter(b: u8) -> bool {
    (97 <= b <= 122) || (65 <= b <= 90)
}

/// A character that may continue an identifier.
pub open spec fn is_ident_byte(b: u8) -> bool {
    is_letter(b) || is_digit(b) || b == 95
}

/// Whitespace the lexer skips.
pub open spec fn is_space(b: u8) -> bool {
    b == 32 || b == 10 || b == 9
}

/// The end of the digit span starting at `i`.
pub open spec fn digits_end(s: Seq<u8>, i: int) -> int
    decreases s.len() - i when 0 <= i <= s.len()
{
    if i < s.len() && is_digit(s[i]) {
        digits_end(s, i + 1)
    } else {
        i
    }
}

/// The end of the identifier span starting at `i`.
pub open spec fn ident_end(s: Seq<u8>, i: int) -> int
    decreases s.len() - i when 0 <= i <= s.len()
{
    if i < s.len() && is_ident_byte(s[i]) {
        ident_end(s, i + 1)
    } else {
        i
    }
}

/// Digit spans end within the input and after where they begin.
pub proof fn lemma_digits_end_bounds(s: Seq<u8>, i: int)
    requires
        0 <= i <= s.len(),
    ensures
        i <= digits_end(s, i) <= s.len(),
    decreases s.len() - i,
{
    if i < s.len() && is_digit(s[i]) {
        lemma_digits_end_bounds(s, i + 1);
    }
}

/// Identifier spans end within the input and after where they begin.
pub proof fn lemma_ident_end_bounds(s: Seq<u8>, i: int)
    requires
        0 <= i <= s.len(),
    ensures
        i <= ident_end(s, i) <= s.len(),
    decreases s.len() - i,
{
    if i < s.len() && is_ident_byte(s[i]) {
        lemma_ident_end_bounds(s, i + 1);
    }
}

/// The decimal value a digit span spells.
pub open spec fn decimal_value(digits: Seq<u8>) -> int
    decreases digits.len(),
{
    if digits.len() == 0 {
        0
    } else {
        decimal_value(digits.drop_last()) * 10 + (digits.last() - 48)
    }
}

/// Appending digits never shrinks a numeral's value.
pub proof fn lemma_decimal_value_monotone(digits: Seq<u8>, k: int)
    requires
        0 <= k <= digits.len(),
        forall|j: int| 0 <= j < digits.len() ==> is_digit(#[trigger] digits[j]),
    ensures
        decimal_value(digits.take(k)) <= decimal_value(digits),
        decimal_value(digits) >= 0,
    decreases digits.len(),
{
    if digits.len() > 0 {
        lemma_decimal_value_monotone(digits.drop_last(), if k < digits.len() {
            k
        } else {
            (digits.len() - 1) as int
        });
        if k < digits.len() {
            assert(digits.take(k) =~= digits.drop_last().take(k));
        } else {
            assert(digits.take(k) =~= digits);
        }
    } else {
        assert(digits.take(k) =~= digits);
    }
}

/// The token one keyword or identifier span yields.
pub open spec fn word_token(word: Seq<u8>) -> TokenView {
    if word == seq![105u8, 110u8, 116u8] {  // "int"
        TokenView::IntKeyword
    } else if word == seq![102u8, 117u8, 110u8, 99u8, 116u8, 105u8, 111u8, 110u8] {  // "function"
        TokenView::FunctionKeyword
    } else if word == seq![105u8, 102u8] {  // "if"
        TokenView::IfKeyword
    } else if word == seq![101u8, 108u8, 115u8, 101u8] {  // "else"
        TokenView::ElseKeyword
    } else if word == seq![114u8, 101u8, 116u8, 117u8, 114u8, 110u8] {  // "return"
        TokenView::ReturnKeyword
    } else {
        TokenView::Identifier(word.map_values(|b: u8| b as char))
    }
}

/// The token one punctuation byte yields, if any.
pub open spec fn symbol_token(b: u8) -> Option<TokenView> {
    if b == 43 {
        Some(TokenView::OpAdd)
    } else if b == 45 {
        Some(TokenView::OpSub)
    } else if b == 42 {
        Some(TokenView::OpMul)
    } else if b == 47 {
        Some(TokenView::OpDiv)
    } else if b == 62 {
        Some(TokenView::OpGt)
    } else if b == 60 {
        Some(TokenView::OpLt)
    } else if b == 61 {
        Some(TokenView::Assign)
    } else if b == 40 {
        Some(TokenView::LParen)
    } else if b == 41 {
        Some(TokenView::RParen)
    } else if b == 123 {
        Some(TokenView::LBrace)
    } else if b == 125 {
        Some(TokenView::RBrace)
    } else if b == 44 {
        Some(TokenView::Comma)
    } else if b == 59 {
        Some(TokenView::Semicolon)
    } else if b == 58 {
        Some(TokenView::Colon)
    } else {
        None
    }
}

/// The token stream of the input from position `i` on: numerals by
/// longest match, keywords and identifiers by longest match, one token
/// per punctuation byte, whitespace skipped. `None` as soon as a byte
/// begins no token.
pub open spec fn spec_lex_from(s: Seq<u8>, i: int) -> Option<Seq<TokenView>>
    decreases s.len() - i when 0 <= i <= s.len() via spec_lex_from_dec
{
    if i >= s.len() {
        Some(Seq::empty())
    } else {
        let b = s[i];
        if is_space(b) {
            spec_lex_from(s, i + 1)
        } else if is_digit(b) {
            let j = digits_end(s, i);
            match spec_lex_from(s, j) {
                Some(rest) => Some(
                    seq![TokenView::Integer(decimal_value(s.subrange(i, j)))] + rest,
                ),
                None => None,
            }
        } else if is_letter(b) {
            let j = ident_end(s, i);
            match spec_lex_from(s, j) {
                Some(rest) => Some(seq![word_token(s.subrange(i, j))] + rest),
                None => None,
            }
        } else {
            match symbol_token(b) {
                Some(t) => match spec_lex_from(s, i + 1) {
                    Some(rest) => Some(seq![t] + rest),
                    None => None,
                },
                None => None,
            }
        }
    }
}

#[via_fn]
proof fn spec_lex_from_dec(s: Seq<u8>, i: int) {
    if 0 <= i < s.len() {
        if is_digit(s[i]) {
            lemma_digits_end_bounds(s, i + 1);
        }
        if is_letter(s[i]) {
            lemma_ident_end_bounds(s, i + 1);
        }
    }
}

/// The token stream of a whole input.
pub open spec fn spec_lex(s: Seq<u8>) -> Option<Seq<TokenView>> {
    spec_lex_from(s, 0)
}

/// Whether every integer token of a stream fits a 32-bit token.
pub open spec fn all_numerals_fit(toks: Seq<TokenView>) -> bool {
    forall|k: int|
        0 <= k < toks.len() ==> match #[trigger] toks[k] {
            TokenView::Integer(n) => 0 <= n <= i32::MAX,
            _ => true,
        }
}

/// Lexes a source text into its token stream: exactly [`spec_lex`] of
/// the input bytes. A byte that begins no token, or a numeral too large
/// for a 32-bit token, stops the lexer with the matching error; so does
/// non-ASCII input, which is outside the language's alphabet.
pub fn lex(input: &str) -> (r: Result<Vec<Token>, LexError>)
    ensures
        input.is_ascii() ==> match r {
            Ok(toks) => Some(toks.deep_view()) == spec_lex(input.spec_bytes()),
            Err(LexError::UnexpectedCharacter) => spec_lex(input.spec_bytes()) is None,
            Err(LexError::NumberTooLarge) => !(spec_lex(input.spec_bytes()) is Some
                && all_numerals_fit(spec_lex(input.spec_bytes())->Some_0)),
        },
        !input.is_ascii() ==> r == Err::<Vec<Token>, LexError>(LexError::UnexpectedCharacter),
{
    broadcast use vstd::string::is_ascii_spec_bytes;

    if !input.is_ascii() {
        return Err(LexError::UnexpectedCharacter);
    }
    let bs = input.as_bytes();
    let n = bs.len();
    let mut toks: Vec<Token> = Vec::new();
    let mut i: usize = 0;
    proof {
        assert(bs@.len() == input@.len());
        assert(toks.deep_view() =~= Seq::<TokenView>::empty());
        if spec_lex_from(bs@, 0) is Some {
            assert(toks.deep_view() + spec_lex_from(bs@, 0)->Some_0 =~= spec_lex_from(
                bs@,
                0,
            )->Some_0);
        }
    }
    while i < n
        invariant
            input.is_ascii(),
            bs@ == input.spec_bytes(),
            bs@.len() == n,
            bs@.len() == input@.len(),
            i <= n,
            spec_lex(bs@) == (match spec_lex_from(bs@, i as int) {
                Some(rest) => Some(toks.deep_view() + rest),
                None => None::<Seq<TokenView>>,
            }),
        decreases n - i,
    {
        let b = bs[i];
        if b == 32 || b == 10 || b == 9 {
            i = i + 1;
        } else if 48 <= b && b <= 57 {
            let mut j = i + 1;
            proof {
                lemma_digits_end_bounds(bs@, i as int);
            }
            while j < n && 48 <= bs[j] && bs[j] <= 57
                invariant
                    bs@.len() == n,
                    i < j <= n,
                    forall|m: int| i <= m < j ==> is_digit(#[trigger] bs@[m]),
                    digits_end(bs@, i as int) == digits_end(bs@, j as int),
                decreases n - j,
            {
                j = j + 1;
            }
            proof {
                assert(digits_end(bs@, j as int) == j);
                lemma_digits_end_bounds(bs@, i as int);
            }
            let ghost span = bs@.subrange(i as int, j as int);
            let mut acc: i64 = 0;
            let mut k = i;
            proof {
                assert(bs@.subrange(i as int, i as int) =~= Seq::<u8>::empty());
            }
            while k < j
                invariant
                    input.is_ascii(),
                    bs@ == input.spec_bytes(),
                    bs@.len() == n,
                    i <= k <= j,
                    i < j,
                    j <= n,
                    is_digit(bs@[i as int]),
                    forall|m: int| i <= m < j ==> is_digit(#[trigger] bs@[m]),
                    0 <= acc <= i32::MAX,
                    acc == decimal_value(bs@.subrange(i as int, k as int)),
                    span == bs@.subrange(i as int, j as int),
                    digits_end(bs@, i as int) == j,
                    spec_lex(bs@) == (match spec_lex_from(bs@, i as int) {
                        Some(rest) => Some(toks.deep_view() + rest),
                        None => None::<Seq<TokenView>>,
                    }),
                decreases j - k,
            {
                let d = bs[k];
                let newacc = acc * 10 + (d - 48) as i64;
                proof {
                    assert(bs@.subrange(i as int, (k + 1) as int).drop_last() =~= bs@.subrange(
                        i as int,
                        k as int,
                    ));
                    assert(bs@.subrange(i as int, (k + 1) as int).last() == bs@[k as int]);
                }
                if newacc > 0x7fff_ffffi64 {
                    proof {
                        assert(decimal_value(bs@.subrange(i as int, (k + 1) as int)) == newacc);
                        lemma_decimal_value_monotone(span, k + 1 - i);
                        assert(span.take(k + 1 - i) =~= bs@.subrange(i as int, (k + 1) as int));
                        assert(decimal_value(span) >= newacc);
                        if spec_lex(bs@) is Some {
                            let rest = spec_lex_from(bs@, j as int)->Some_0;
                            let full = toks.deep_view() + (seq![
                                TokenView::Integer(decimal_value(span)),
                            ] + rest);
                            assert(spec_lex(bs@)->Some_0 == full);
                            assert(full[toks.deep_view().len() as int] == TokenView::Integer(
                                decimal_value(span),
                            ));
                            assert(!all_numerals_fit(full));
                        }
                    }
                    return Err(LexError::NumberTooLarge);
                }
                acc = newacc;
                k = k + 1;
            }
            proof {
                assert(bs@.subrange(i as int, k as int) == span);
            }
            let t = Token::Integer(acc as i32);
            proof {
                let tv = TokenView::Integer(acc as int);
                assert(t.deep_view() == tv);
                assert(toks.deep_view().push(tv) =~= toks@.push(t).map_values(
                    |x: Token| x.deep_view(),
                ));
                if spec_lex_from(bs@, j as int) is Some {
                    let rest = spec_lex_from(bs@, j as int)->Some_0;
                    assert(toks.deep_view().push(tv) + rest =~= toks.deep_view() + (seq![tv]
                        + rest));
                }
            }
            toks.push(t);
            proof {
                assert(toks.deep_view() =~= toks@.map_values(|x: Token| x.deep_view()));
            }
            i = j;
        } else if (97 <= b && b <= 122) || (65 <= b && b <= 90) {
            let mut j = i + 1;
            proof {
                lemma_ident_end_bounds(bs@, i as int);
            }
            while j < n && ((97 <= bs[j] && bs[j] <= 122) || (65 <= bs[j] && bs[j] <= 90) || (48
                <= bs[j] && bs[j] <= 57) || bs[j] == 95)
                invariant
                    bs@.len() == n,
                    i < j <= n,
                    ident_end(bs@, i as int) == ident_end(bs@, j as int),
                decreases n - j,
            {
                j = j + 1;
            }
            proof {
                assert(ident_end(bs@, j as int) == j);
            }
            let ghost word = bs@.subrange(i as int, j as int);
            let wlen = j - i;
            let t = if wlen == 3 && bs[i] == 105 && bs[i + 1] == 110 && bs[i + 2] == 116 {
                proof {
                    assert(word =~= seq![105u8, 110u8, 116u8]);
                }
                Token::IntKeyword
            } else if wlen == 8 && bs[i] == 102 && bs[i + 1] == 117 && bs[i + 2] == 110 && bs[i + 3]
                == 99 && bs[i + 4] == 116 && bs[i + 5] == 105 && bs[i + 6] == 111 && bs[i + 7]
                == 110 {
                proof {
                    assert(word =~= seq![102u8, 117u8, 110u8, 99u8, 116u8, 105u8, 111u8, 110u8]);
                }
                Token::FunctionKeyword
            } else if wlen == 2 && bs[i] == 105 && bs[i + 1] == 102 {
                proof {
                    assert(word =~= seq![105u8, 102u8]);
                }
                Token::IfKeyword
            } else if wlen == 4 && bs[i] == 101 && bs[i + 1] == 108 && bs[i + 2] == 115 && bs[i + 3]
                == 101 {
                proof {
                    assert(word =~= seq![101u8, 108u8, 115u8, 101u8]);
                }
                Token::ElseKeyword
            } else if wlen == 6 && bs[i] == 114 && bs[i + 1] == 101 && bs[i + 2] == 116 && bs[i + 3]
                == 117 && bs[i + 4] == 114 && bs[i + 5] == 110 {
                proof {
                    assert(word =~= seq![114u8, 101u8, 116u8, 117u8, 114u8, 110u8]);
                }
                Token::ReturnKeyword
            } else {
                let st = input.substring_ascii(i, j).to_owned();
                proof {
                    assert(st@ == input@.subrange(i as int, j as int));
                    assert(word =~= Seq::new((j - i) as nat, |m: int| input@[i + m] as u8));
                    assert(st@ =~= word.map_values(|bb: u8| bb as char)) by {
                        assert(forall|m: int|
                            0 <= m < st@.len() ==> #[trigger] st@[m] == word.map_values(
                                |bb: u8| bb as char,
                            )[m]);
                    };
                    assert(word != seq![105u8, 110u8, 116u8] && word != seq![
                        102u8,
                        117u8,
                        110u8,
                        99u8,
                        116u8,
                        105u8,
                        111u8,
                        110u8,
                    ] && word != seq![105u8, 102u8] && word != seq![101u8, 108u8, 115u8, 101u8]
                        && word != seq![114u8, 101u8, 116u8, 117u8, 114u8, 110u8]);
                }
                Token::Identifier(st)
            };
            proof {
                assert(t.deep_view() == word_token(word));
                assert(toks.deep_view().push(word_token(word)) =~= toks@.push(t).map_values(
                    |x: Token| x.deep_view(),
                ));
                if spec_lex_from(bs@, j as int) is Some {
                    let rest = spec_lex_from(bs@, j as int)->Some_0;
                    assert(toks.deep_view().push(word_token(word)) + rest =~= toks.deep_view() + (
                    seq![word_token(word)] + rest));
                }
            }
            toks.push(t);
            proof {
                assert(toks.deep_view() =~= toks@.map_values(|x: Token| x.deep_view()));
            }
            i = j;
        } else {
            let t = if b == 43 {
                Token::OpAdd
            } else if b == 45 {
                Token::OpSub
            } else if b == 42 {
                Token::OpMul
            } else if b == 47 {
                Token::OpDiv
            } else if b == 62 {
                Token::OpGt
            } else if b == 60 {
                Token::OpLt
            } else if b == 61 {
                Token::Assign
            } else if b == 40 {
                Token::LParen
            } else if b == 41 {
                Token::RParen
            } else if b == 123 {
                Token::LBrace
            } else if b == 125 {
                Token::RBrace
            } else if b == 44 {
                Token::Comma
            } else if b == 59 {
                Token::Semicolon
            } else if b == 58 {
                Token::Colon
            } else {
                return Err(LexError::UnexpectedCharacter);
            };
            proof {
                let tv = symbol_token(b)->Some_0;
                assert(t.deep_view() == tv);
                assert(toks.deep_view().push(tv) =~= toks@.push(t).map_values(
                    |x: Token| x.deep_view(),
                ));
                if spec_lex_from(bs@, (i + 1) as int) is Some {
                    let rest = spec_lex_from(bs@, (i + 1) as int)->Some_0;
                    assert(toks.deep_view().push(tv) + rest =~= toks.deep_view() + (seq![tv]
                        + rest));
                }
            }
            toks.push(t);
            proof {
                assert(toks.deep_view() =~= toks@.map_values(|x: Token| x.deep_view()));
            }
            i = i + 1;
        }
    }
    proof {
        if spec_lex_from(bs@, n as int) is Some {
            assert(toks.deep_view() + spec_lex_from(bs@, n as int)->Some_0 =~= toks.deep_view());
        }
    }
    Ok(toks)
}

/// A syntax-tree node of the surface language.
#[derive(Debug, PartialEq)]
pub enum AstNode {
    Function { name: String, params: Vec<String>, body: Vec<AstNode>, return_type: ValueType },
    VariableDeclaration { name: String, vtype: ValueType, value: Box<AstNode> },
    BinaryExpr { left: Box<AstNode>, operator: BinaryOp, right: Box<AstNode> },
    LiteralInt(i32),
    VariableRef(String),
    Return(Box<AstNode>),
    If {
        condition: Box<AstNode>,
        then_branch: Vec<AstNode>,
        else_branch: Option<Vec<AstNode>>,
    },
}

/// The surface language's one value type.
#[derive(Debug, Clone, Copy, PartialEq, Eq, Structural)]
pub enum ValueType {
    Int,
}

/// The surface language's binary operators.
#[derive(Debug, Clone, Copy, PartialEq, Eq, Structural)]
pub enum BinaryOp {
    Add,
    Sub,
    Mul,
    Div,
}

/// What can stop the parser.
#[derive(Debug, Clone, Copy, PartialEq, Eq, Structural)]
pub enum ParseError {
    /// A token that fits no production at this point.
    UnexpectedToken,
    /// The token stream ended inside a production.
    UnexpectedEnd,
}

/// Whether a node is a top-level variable declaration.
pub open spec fn is_var_decl(node: AstNode) -> bool {
    node is VariableDeclaration
}

/// Parses one factor: an integer literal or a variable reference.
fn parse_factor(tokens: &[Token], pos: usize) -> (r: Result<(AstNode, usize), ParseError>)
    requires
        pos <= tokens@.len(),
    ensures
        r matches Ok(p) ==> pos < p.1 <= tokens@.len(),
{
    if pos >= tokens.len() {
        return Err(ParseError::UnexpectedEnd);
    }
    match &tokens[pos] {
        Token::Integer(n) => Ok((AstNode::LiteralInt(*n), pos + 1)),
        Token::Identifier(name) => Ok((AstNode::VariableRef(name.clone()), pos + 1)),
        _ => Err(ParseError::UnexpectedToken),
    }
}

/// Parses one term: factors joined by `*` and `/`.
fn parse_term(tokens: &[Token], pos: usize) -> (r: Result<(AstNode, usize), ParseError>)
    requires
        pos <= tokens@.len(),
    ensures
        r matches Ok(p) ==> pos < p.1 <= tokens@.len(),
{
    let (first, mut cur) = match parse_factor(tokens, pos) {
        Ok(p) => p,
        Err(e) => {
            return Err(e);
        },
    };
    let mut node = first;
    let n = tokens.len();
    while cur < n
        invariant
            pos < cur <= tokens@.len(),
            tokens@.len() == n,
        decreases n - cur,
    {
        let op = match &tokens[cur] {
            Token::OpMul => BinaryOp::Mul,
            Token::OpDiv => BinaryOp::Div,
            _ => {
                break ;
            },
        };
        let (right, next) = match parse_factor(tokens, cur + 1) {
            Ok(p) => p,
            Err(e) => {
                return Err(e);
            },
        };
        node = AstNode::BinaryExpr {
            left: Box::new(node),
            operator: op,
            right: Box::new(right),
        };
        cur = next;
    }
    Ok((node, cur))
}

/// Parses one expression: terms joined by `+` and `-`.
fn parse_expression(tokens: &[Token], pos: usize) -> (r: Result<(AstNode, usize), ParseError>)
    requires
        pos <= tokens@.len(),
    ensures
        r matches Ok(p) ==> pos < p.1 <= tokens@.len(),
{
    let (first, mut cur) = match parse_term(tokens, pos) {
        Ok(p) => p,
        Err(e) => {
            return Err(e);
        },
    };
    let mut node = first;
    let n = tokens.len();
    while cur < n
        invariant
            pos < cur <= tokens@.len(),
            tokens@.len() == n,
        decreases n - cur,
    {
        let op = match &tokens[cur] {
            Token::OpAdd => BinaryOp::Add,
            Token::OpSub => BinaryOp::Sub,
            _ => {
                break ;
            },
        };
        let (right, next) = match parse_term(tokens, cur + 1) {
            Ok(p) => p,
            Err(e) => {
                return Err(e);
            },
        };
        node = AstNode::BinaryExpr {
            left: Box::new(node),
            operator: op,
            right: Box::new(right),
        };
        cur = next;
    }
    Ok((node, cur))
}

/// Parses a token stream into syntax trees. The grammar covered is a
/// sequence of variable declarations, `int <name> = <expression> ;`,
/// whose expressions are built from integer literals, variable
/// references, and the four arithmetic operators with the usual
/// precedence.
pub fn parse(tokens: &[Token]) -> (r: Result<Vec<AstNode>, ParseError>)
    ensures
        r matches Ok(nodes) ==> forall|k: int|
            0 <= k < nodes@.len() ==> is_var_decl(#[trigger] nodes@[k]),
        tokens@.len() == 0 ==> (r matches Ok(nodes) && nodes@.len() == 0),
        r matches Ok(nodes) ==> (tokens@.len() > 0 ==> nodes@.len() > 0),
{
    let mut nodes: Vec<AstNode> = Vec::new();
    let mut pos: usize = 0;
    let n = tokens.len();
    while pos < n
        invariant
            pos <= tokens@.len(),
            tokens@.len() == n,
            (nodes@.len() == 0) == (pos == 0),
            forall|k: int| 0 <= k < nodes@.len() ==> is_var_decl(#[trigger] nodes@[k]),
        decreases n - pos,
    {
        match &tokens[pos] {
            Token::IntKeyword => {},
            _ => {
                return Err(ParseError::UnexpectedToken);
            },
        }
        if pos + 1 >= n {
            return Err(ParseError::UnexpectedEnd);
        }
        let name = match &tokens[pos + 1] {
            Token::Identifier(s) => s.clone(),
            _ => {
                return Err(ParseError::UnexpectedToken);
            },
        };
        if pos + 2 >= n {
            return Err(ParseError::UnexpectedEnd);
        }
        match &tokens[pos + 2] {
            Token::Assign => {},
            _ => {
                return Err(ParseError::UnexpectedToken);
            },
        }
        let (value, after) = match parse_expression(tokens, pos + 3) {
            Ok(p) => p,
            Err(e) => {
                return Err(e);
            },
        };
        if after >= n {
            return Err(ParseError::UnexpectedEnd);
        }
        match &tokens[after] {
            Token::Semicolon => {},
            _ => {
                return Err(ParseError::UnexpectedToken);
            },
        }
        nodes.push(
            AstNode::VariableDeclaration {
                name,
                vtype: ValueType::Int,
                value: Box::new(value),
            },
        );
        pos = after + 1;
    }
    Ok(nodes)
}

/// What can stop the compiler.
#[derive(Debug, Clone, Copy, PartialEq, Eq, Structural)]
pub enum CompileError {
    /// A construct with no straight-line compilation: conditional control
    /// flow is excluded from the jump-free instruction set.
    UnsupportedConstruct,
    /// A negative literal: the machine's operands are unsigned.
    NegativeLiteral,
}

/// The bytecode one syntax-tree node compiles to. A function declaration
/// is a placeholder no-op; a variable declaration stores its value; an
/// `if` has no straight-line compilation and is rejected.
pub open spec fn spec_compile_node(node: AstNode) -> Result<Seq<OpCode>, CompileError>
    decreases node,
{
    match node {
        AstNode::Function { .. } => Ok(seq![OpCode::NoOp]),
        AstNode::VariableDeclaration { value, .. } => match spec_compile_node(*value) {
            Ok(c) => Ok(c + seq![OpCode::Store(0)]),
            Err(e) => Err(e),
        },
        AstNode::BinaryExpr { left, operator, right } => match (
            spec_compile_node(*left),
            spec_compile_node(*right),
        ) {
            (Ok(l), Ok(r)) => Ok(
                l + r + seq![
                    match operator {
                        BinaryOp::Add => OpCode::Add,
                        BinaryOp::Sub => OpCode::Sub,
                        BinaryOp::Mul => OpCode::Mul,
                        BinaryOp::Div => OpCode::Div,
                    },
                ],
            ),
            (Err(e), _) => Err(e),
            (_, Err(e)) => Err(e),
        },
        AstNode::LiteralInt(v) => {
            if v < 0 {
                Err(CompileError::NegativeLiteral)
            } else {
                Ok(seq![OpCode::Push(Value::Uint32(v as u32))])
            }
        },
        AstNode::VariableRef(_) => Ok(seq![OpCode::Load(0)]),
        AstNode::Return(e) => spec_compile_node(*e),
        AstNode::If { .. } => Err(CompileError::UnsupportedConstruct),
    }
}

/// The bytecode a node sequence compiles to, in order.
pub open spec fn spec_compile(nodes: Seq<AstNode>) -> Result<Seq<OpCode>, CompileError>
    decreases nodes.len(),
{
    if nodes.len() == 0 {
        Ok(Seq::empty())
    } else {
        match spec_compile_node(nodes[0]) {
            Ok(c) => match spec_compile(nodes.skip(1)) {
                Ok(rest) => Ok(c + rest),
                Err(e) => Err(e),
            },
            Err(e) => Err(e),
        }
    }
}

/// Compiles one node; see [`spec_compile_node`].
fn compile_node(node: &AstNode) -> (r: Result<Vec<OpCode>, CompileError>)
    ensures
        match spec_compile_node(*node) {
            Ok(c) => r is Ok && r->Ok_0@ == c,
            Err(e) => r == Err::<Vec<OpCode>, CompileError>(e),
        },
    decreases *node,
{
    match node {
        AstNode::Function { .. } => Ok(vec![OpCode::NoOp]),
        AstNode::VariableDeclaration { value, .. } => {
            let mut code = match compile_node(value) {
                Ok(c) => c,
                Err(e) => {
                    return Err(e);
                },
            };
            code.push(OpCode::Store(0));
            proof {
                assert(code@ =~= spec_compile_node(*node)->Ok_0);
            }
            Ok(code)
        },
        AstNode::BinaryExpr { left, operator, right } => {
            let mut code = match compile_node(left) {
                Ok(c) => c,
                Err(e) => {
                    return Err(e);
                },
            };
            let mut rcode = match compile_node(right) {
                Ok(c) => c,
                Err(e) => {
                    return Err(e);
                },
            };
            code.append(&mut rcode);
            code.push(
                match operator {
                    BinaryOp::Add => OpCode::Add,
                    BinaryOp::Sub => OpCode::Sub,
                    BinaryOp::Mul => OpCode::Mul,
                    BinaryOp::Div => OpCode::Div,
                },
            );
            proof {
                assert(code@ =~= spec_compile_node(*node)->Ok_0);
            }
            Ok(code)
        },
        AstNode::LiteralInt(v) => {
            if *v < 0 {
                Err(CompileError::NegativeLiteral)
            } else {
                Ok(vec![OpCode::Push(Value::Uint32(*v as u32))])
            }
        },
        AstNode::VariableRef(_) => Ok(vec![OpCode::Load(0)]),
        AstNode::Return(e) => compile_node(e),
        AstNode::If { .. } => Err(CompileError::UnsupportedConstruct),
    }
}

/// Compiles a syntax-tree sequence to bytecode; see [`spec_compile`].
pub fn compile(ast: &[AstNode]) -> (r: Result<Vec<OpCode>, CompileError>)
    ensures
        match spec_compile(ast@) {
            Ok(c) => r is Ok && r->Ok_0@ == c,
            Err(e) => r == Err::<Vec<OpCode>, CompileError>(e),
        },
{
    let mut out: Vec<OpCode> = Vec::new();
    let mut i: usize = 0;
    let n = ast.len();
    proof {
        assert(ast@.skip(0) =~= ast@);
        if spec_compile(ast@) is Ok {
            assert(out@ + spec_compile(ast@)->Ok_0 =~= spec_compile(ast@)->Ok_0);
        }
    }
    while i < n
        invariant
            i <= ast@.len(),
            ast@.len() == n,
            spec_compile(ast@) == (match spec_compile(ast@.skip(i as int)) {
                Ok(rest) => Ok::<Seq<OpCode>, CompileError>(out@ + rest),
                Err(e) => Err(e),
            }),
        decreases n - i,
    {
        proof {
            assert(ast@.skip(i as int)[0] == ast@[i as int]);
            assert(ast@.skip(i as int).skip(1) =~= ast@.skip(i + 1));
        }
        let mut c = match compile_node(&ast[i]) {
            Ok(c) => c,
            Err(e) => {
                return Err(e);
            },
        };
        proof {
            if spec_compile_node(ast@[i as int]) is Ok && spec_compile(ast@.skip(i + 1)) is Ok {
                assert((out@ + c@) + spec_compile(ast@.skip(i + 1))->Ok_0 =~= out@ + (c@
                    + spec_compile(ast@.skip(i + 1))->Ok_0));
            }
        }
        out.append(&mut c);
        i = i + 1;
    }
    proof {
        assert(ast@.skip(n as int) =~= Seq::<AstNode>::empty());
        if spec_compile(ast@) is Ok {
            assert(out@ + Seq::<OpCode>::empty() =~= out@);
        }
    }
    Ok(out)
}

} // verus!
