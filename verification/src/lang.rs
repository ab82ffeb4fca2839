//! A class-and-trait surface language: a lexer and a recursive-descent
//! parser producing a declaration tree. This front-end is a collaborator
//! of the machine, not part of it: nothing here executes bytecode.

use vstd::prelude::*;
use vstd::string::StrSliceExecFns;

verus! {

/// What can stop the lexer or the parser.
#[derive(Debug, Clone, Copy, PartialEq, Eq, Structural)]
pub enum ParseError {
    /// A byte outside the language's alphabet, or non-ASCII input.
    UnexpectedCharacter,
    /// A numeral too large for a 64-bit literal.
    NumberTooLarge,
    /// A token that fits no production at this point.
    UnexpectedToken,
    /// The token stream ended inside a production.
    UnexpectedEnd,
}

/// A surface token: a word (keyword or identifier), a numeral, or one
/// punctuation mark.
#[derive(Debug, Clone, PartialEq, Eq)]
pub enum LangToken {
    Word(String),
    Number(i64),
    LParen,
    RParen,
    LBrace,
    RBrace,
    Comma,
    Semicolon,
    Colon,
    Assign,
    Plus,
    Minus,
    Star,
    Slash,
}

/// A whole parsed source file.
#[derive(Debug, PartialEq)]
pub enum Program {
    Declarations(Vec<Declaration>),
}

/// One top-level declaration.
#[derive(Debug, PartialEq)]
pub enum Declaration {
    ClassDecl(ClassDecl),
    TraitDecl(TraitDecl),
}

/// A class: access modifier, name, optional superclass, members.
#[derive(Debug, PartialEq)]
pub struct ClassDecl {
    access_modifier: Option<AccessModifier>,
    name: String,
    superclass: Option<String>,
    members: Vec<ClassMember>,
}

/// A trait: a name and its method signatures.
#[derive(Debug, PartialEq)]
pub struct TraitDecl {
    name: String,
    methods: Vec<MethodSignature>,
}

/// A method's name, parameters and return type, without a body.
#[derive(Debug, PartialEq)]
struct MethodSignature {
    name: String,
    params: Vec<(String, Type)>,
    return_type: Type,
}

/// One member of a class body.
#[derive(Debug, PartialEq)]
enum ClassMember {
    Constructor(ConstructorDecl),
    Method(MethodDecl),
    Property(PropertyDecl),
    AbstractMethod(MethodSignature),
}

/// A constructor: access modifier, parameters, body.
#[derive(Debug, PartialEq)]
struct ConstructorDecl {
    access_modifier: Option<AccessModifier>,
    params: Vec<(String, Type)>,
    body: Vec<Stmt>,
}

/// A concrete method.
#[derive(Debug, PartialEq)]
struct MethodDecl {
    access_modifier: Option<AccessModifier>,
    is_static: bool,
    name: String,
    params: Vec<(String, Type)>,
    return_type: Type,
    body: Vec<Stmt>,
}

/// A property with an initializer.
#[derive(Debug, PartialEq)]
struct PropertyDecl {
    access_modifier: Option<AccessModifier>,
    is_static: bool,
    name: String,
    type_: Type,
    initializer: Expr,
}

/// A statement of a method or constructor body.
#[derive(Debug, PartialEq)]
enum Stmt {
    VarDecl(String, Type, Expr),
    Expr(Expr),
}

/// An expression: literals, variables, and arithmetic.
#[derive(Debug, PartialEq)]
enum Expr {
    IntegerLiteral(i64),
    Variable(String),
    BinaryOp(Box<Expr>, Operator, Box<Expr>),
}

/// An arithmetic operator.
#[derive(Debug, Clone, Copy, PartialEq, Eq, Structural)]
enum Operator {
    Add,
    Subtract,
    Multiply,
    Divide,
}

/// A surface type.
#[derive(Debug, Clone, Copy, PartialEq, Eq, Structural)]
enum Type {
    Uint8,
    Uint16,
    Uint32,
    Uint64,
    Uint128,
    Bool,
}

/// An access modifier on a class, member or constructor.
#[derive(Debug, Clone, Copy, PartialEq, Eq, Structural)]
enum AccessModifier {
    Public,
    Private,
    Protected,
}

/// Splits ASCII source text into tokens: words, numerals, punctuation;
/// whitespace separates. Any other byte, or non-ASCII input, is an error.
fn tokenize(input: &str) -> (r: Result<Vec<LangToken>, ParseError>) {
    if !input.is_ascii() {
        return Err(ParseError::UnexpectedCharacter);
    }
    let bs = input.as_bytes();
    let n = bs.len();
    proof {
        broadcast use vstd::string::is_ascii_spec_bytes;

        assert(bs@.len() == input@.len());
    }
    let mut toks: Vec<LangToken> = Vec::new();
    let mut i: usize = 0;
    while i < n
        invariant
            i <= n,
            bs@.len() == n,
            bs@.len() == input@.len(),
            input.is_ascii(),
        decreases n - i,
    {
        let b = bs[i];
        if b == 32 || b == 10 || b == 13 || b == 9 {
            i = i + 1;
        } else if 48 <= b && b <= 57 {
            let mut j = i + 1;
            let mut acc: i64 = (b - 48) as i64;
            while j < n && 48 <= bs[j] && bs[j] <= 57
                invariant
                    i < j <= n,
                    bs@.len() == n,
                    0 <= acc,
                decreases n - j,
            {
                if acc > 0xcccc_cccc_cccc_ccci64 {
                    return Err(ParseError::NumberTooLarge);
                }
                let d = (bs[j] - 48) as i64;
                if acc * 10 > i64::MAX - d {
                    return Err(ParseError::NumberTooLarge);
                }
                acc = acc * 10 + d;
                j = j + 1;
            }
            toks.push(LangToken::Number(acc));
            i = j;
        } else if (97 <= b && b <= 122) || (65 <= b && b <= 90) || b == 95 {
            let mut j = i + 1;
            while j < n && ((97 <= bs[j] && bs[j] <= 122) || (65 <= bs[j] && bs[j] <= 90) || (48
                <= bs[j] && bs[j] <= 57) || bs[j] == 95)
                invariant
                    i < j <= n,
                    bs@.len() == n,
                    bs@.len() == input@.len(),
                    input.is_ascii(),
                decreases n - j,
            {
                j = j + 1;
            }
            let word = input.substring_ascii(i, j).to_owned();
            toks.push(LangToken::Word(word));
            i = j;
        } else {
            let t = if b == 40 {
                LangToken::LParen
            } else if b == 41 {
                LangToken::RParen
            } else if b == 123 {
                LangToken::LBrace
            } else if b == 125 {
                LangToken::RBrace
            } else if b == 44 {
                LangToken::Comma
            } else if b == 59 {
                LangToken::Semicolon
            } else if b == 58 {
                LangToken::Colon
            } else if b == 61 {
                LangToken::Assign
            } else if b == 43 {
                LangToken::Plus
            } else if b == 45 {
                LangToken::Minus
            } else if b == 42 {
                LangToken::Star
            } else if b == 47 {
                LangToken::Slash
            } else {
                return Err(ParseError::UnexpectedCharacter);
            };
            toks.push(t);
            i = i + 1;
        }
    }
    Ok(toks)
}

/// Whether the token at `pos` is the given keyword.
fn at_word(tokens: &[LangToken], pos: usize, kw: &str) -> (r: bool)
    requires
        pos <= tokens@.len(),
    ensures
        r ==> pos < tokens@.len(),
{
    if pos >= tokens.len() {
        return false;
    }
    match &tokens[pos] {
        LangToken::Word(w) => w == &kw.to_owned(),
        _ => false,
    }
}

/// The identifier at `pos`, if the token there is a word.
fn ident_at(tokens: &[LangToken], pos: usize) -> (r: Option<String>)
    requires
        pos <= tokens@.len(),
    ensures
        r is Some ==> pos < tokens@.len(),
{
    if pos >= tokens.len() {
        return None;
    }
    match &tokens[pos] {
        LangToken::Word(w) => Some(w.clone()),
        _ => None,
    }
}

/// Maps a type keyword to the surface type it names.
fn parse_type(tokens: &[LangToken], pos: usize) -> (r: Result<(Type, usize), ParseError>)
    requires
        pos <= tokens@.len(),
    ensures
        r matches Ok(p) ==> pos < p.1 <= tokens@.len(),
{
    if pos >= tokens.len() {
        return Err(ParseError::UnexpectedEnd);
    }
    let w = match &tokens[pos] {
        LangToken::Word(w) => w,
        _ => {
            return Err(ParseError::UnexpectedToken);
        },
    };
    let t = if w == &("uint8".to_owned()) {
        Type::Uint8
    } else if w == &("uint16".to_owned()) {
        Type::Uint16
    } else if w == &("uint32".to_owned()) {
        Type::Uint32
    } else if w == &("uint64".to_owned()) {
        Type::Uint64
    } else if w == &("uint128".to_owned()) {
        Type::Uint128
    } else if w == &("bool".to_owned()) {
        Type::Bool
    } else {
        return Err(ParseError::UnexpectedToken);
    };
    Ok((t, pos + 1))
}

/// Maps an access-modifier keyword, if one stands at `pos`.
fn parse_access_modifier(tokens: &[LangToken], pos: usize) -> (r: (Option<AccessModifier>, usize))
    requires
        pos <= tokens@.len(),
    ensures
        pos <= r.1 <= tokens@.len(),
        r.0 is Some ==> r.1 == pos + 1,
        r.0 is None ==> r.1 == pos,
{
    let _bound = tokens.len();
    if at_word(tokens, pos, "public") {
        (Some(AccessModifier::Public), pos + 1)
    } else if at_word(tokens, pos, "private") {
        (Some(AccessModifier::Private), pos + 1)
    } else if at_word(tokens, pos, "protected") {
        (Some(AccessModifier::Protected), pos + 1)
    } else {
        (None, pos)
    }
}

/// Parses one expression factor: a numeral or a variable reference.
fn parse_factor(tokens: &[LangToken], pos: usize) -> (r: Result<(Expr, usize), ParseError>)
    requires
        pos <= tokens@.len(),
    ensures
        r matches Ok(p) ==> pos < p.1 <= tokens@.len(),
{
    if pos >= tokens.len() {
        return Err(ParseError::UnexpectedEnd);
    }
    match &tokens[pos] {
        LangToken::Number(v) => Ok((Expr::IntegerLiteral(*v), pos + 1)),
        LangToken::Word(w) => Ok((Expr::Variable(w.clone()), pos + 1)),
        _ => Err(ParseError::UnexpectedToken),
    }
}

/// Parses one term: factors joined by `*` and `/`.
fn parse_term(tokens: &[LangToken], pos: usize) -> (r: Result<(Expr, usize), ParseError>)
    requires
        pos <= tokens@.len(),
    ensures
        r matches Ok(p) ==> pos < p.1 <= tokens@.len(),
{
    let (first, mut cur) = match parse_factor(tokens, pos) {
        Ok(p) => p,
        Err(e) => {
            return Err(e);
        },
    };
    let mut node = first;
    let n = tokens.len();
    while cur < n
        invariant
            pos < cur <= tokens@.len(),
            tokens@.len() == n,
        decreases n - cur,
    {
        let op = match &tokens[cur] {
            LangToken::Star => Operator::Multiply,
            LangToken::Slash => Operator::Divide,
            _ => {
                break ;
            },
        };
        let (right, next) = match parse_factor(tokens, cur + 1) {
            Ok(p) => p,
            Err(e) => {
                return Err(e);
            },
        };
        node = Expr::BinaryOp(Box::new(node), op, Box::new(right));
        cur = next;
    }
    Ok((node, cur))
}

/// Parses one expression: terms joined by `+` and `-`.
fn parse_expression(tokens: &[LangToken], pos: usize) -> (r: Result<(Expr, usize), ParseError>)
    requires
        pos <= tokens@.len(),
    ensures
        r matches Ok(p) ==> pos < p.1 <= tokens@.len(),
{
    let (first, mut cur) = match parse_term(tokens, pos) {
        Ok(p) => p,
        Err(e) => {
            return Err(e);
        },
    };
    let mut node = first;
    let n = tokens.len();
    while cur < n
        invariant
            pos < cur <= tokens@.len(),
            tokens@.len() == n,
        decreases n - cur,
    {
        let op = match &tokens[cur] {
            LangToken::Plus => Operator::Add,
            LangToken::Minus => Operator::Subtract,
            _ => {
                break ;
            },
        };
        let (right, next) = match parse_term(tokens, cur + 1) {
            Ok(p) => p,
            Err(e) => {
                return Err(e);
            },
        };
        node = Expr::BinaryOp(Box::new(node), op, Box::new(right));
        cur = next;
    }
    Ok((node, cur))
}

/// Parses a parenthesized parameter list: `( name : type , ... )`.
fn parse_parameter_list(tokens: &[LangToken], pos: usize) -> (r: Result<
    (Vec<(String, Type)>, usize),
    ParseError,
>)
    requires
        pos <= tokens@.len(),
    ensures
        r matches Ok(p) ==> pos < p.1 <= tokens@.len(),
{
    if pos >= tokens.len() {
        return Err(ParseError::UnexpectedEnd);
    }
    match &tokens[pos] {
        LangToken::LParen => {},
        _ => {
            return Err(ParseError::UnexpectedToken);
        },
    }
    let mut params: Vec<(String, Type)> = Vec::new();
    let mut cur = pos + 1;
    let n = tokens.len();
    if cur < n {
        match &tokens[cur] {
            LangToken::RParen => {
                return Ok((params, cur + 1));
            },
            _ => {},
        }
    }
    loop
        invariant
            pos < cur <= tokens@.len(),
            tokens@.len() == n,
        decreases n - cur,
    {
        let name = match ident_at(tokens, cur) {
            Some(s) => s,
            None => {
                return Err(ParseError::UnexpectedToken);
            },
        };
        if cur + 1 >= n {
            return Err(ParseError::UnexpectedEnd);
        }
        match &tokens[cur + 1] {
            LangToken::Colon => {},
            _ => {
                return Err(ParseError::UnexpectedToken);
            },
        }
        let (t, after_ty) = match parse_type(tokens, cur + 2) {
            Ok(p) => p,
            Err(e) => {
                return Err(e);
            },
        };
        params.push((name, t));
        if after_ty >= n {
            return Err(ParseError::UnexpectedEnd);
        }
        match &tokens[after_ty] {
            LangToken::RParen => {
                return Ok((params, after_ty + 1));
            },
            LangToken::Comma => {
                if after_ty + 1 >= n {
                    return Err(ParseError::UnexpectedEnd);
                }
                cur = after_ty + 1;
            },
            _ => {
                return Err(ParseError::UnexpectedToken);
            },
        }
    }
}

/// Parses one statement: `let name : type = expr ;` or a bare
/// expression statement.
fn parse_statement(tokens: &[LangToken], pos: usize) -> (r: Result<(Stmt, usize), ParseError>)
    requires
        pos <= tokens@.len(),
    ensures
        r matches Ok(p) ==> pos < p.1 <= tokens@.len(),
{
    let n = tokens.len();
    if at_word(tokens, pos, "let") {
        let name = match ident_at(tokens, pos + 1) {
            Some(s) => s,
            None => {
                return Err(ParseError::UnexpectedToken);
            },
        };
        if pos + 2 >= n {
            return Err(ParseError::UnexpectedEnd);
        }
        match &tokens[pos + 2] {
            LangToken::Colon => {},
            _ => {
                return Err(ParseError::UnexpectedToken);
            },
        }
        let (t, after_ty) = match parse_type(tokens, pos + 3) {
            Ok(p) => p,
            Err(e) => {
                return Err(e);
            },
        };
        if after_ty >= n {
            return Err(ParseError::UnexpectedEnd);
        }
        match &tokens[after_ty] {
            LangToken::Assign => {},
            _ => {
                return Err(ParseError::UnexpectedToken);
            },
        }
        let (e, after_expr) = match parse_expression(tokens, after_ty + 1) {
            Ok(p) => p,
            Err(e) => {
                return Err(e);
            },
        };
        if after_expr >= n {
            return Err(ParseError::UnexpectedEnd);
        }
        match &tokens[after_expr] {
            LangToken::Semicolon => {},
            _ => {
                return Err(ParseError::UnexpectedToken);
            },
        }
        Ok((Stmt::VarDecl(name, t, e), after_expr + 1))
    } else {
        let (e, after_expr) = match parse_expression(tokens, pos) {
            Ok(p) => p,
            Err(e) => {
                return Err(e);
            },
        };
        if after_expr >= n {
            return Err(ParseError::UnexpectedEnd);
        }
        match &tokens[after_expr] {
            LangToken::Semicolon => {},
            _ => {
                return Err(ParseError::UnexpectedToken);
            },
        }
        Ok((Stmt::Expr(e), after_expr + 1))
    }
}

/// Parses a braced statement block: `{ stmt* }`.
fn parse_block(tokens: &[LangToken], pos: usize) -> (r: Result<(Vec<Stmt>, usize), ParseError>)
    requires
        pos <= tokens@.len(),
    ensures
        r matches Ok(p) ==> pos < p.1 <= tokens@.len(),
{
    let n = tokens.len();
    if pos >= n {
        return Err(ParseError::UnexpectedEnd);
    }
    match &tokens[pos] {
        LangToken::LBrace => {},
        _ => {
            return Err(ParseError::UnexpectedToken);
        },
    }
    let mut body: Vec<Stmt> = Vec::new();
    let mut cur = pos + 1;
    loop
        invariant
            pos < cur <= tokens@.len(),
            tokens@.len() == n,
        decreases n - cur,
    {
        if cur >= n {
            return Err(ParseError::UnexpectedEnd);
        }
        match &tokens[cur] {
            LangToken::RBrace => {
                return Ok((body, cur + 1));
            },
            _ => {},
        }
        let (s, next) = match parse_statement(tokens, cur) {
            Ok(p) => p,
            Err(e) => {
                return Err(e);
            },
        };
        body.push(s);
        cur = next;
    }
}

/// Parses one trait method signature: `name ( params ) : type ;`.
fn parse_method_signature(tokens: &[LangToken], pos: usize) -> (r: Result<
    (MethodSignature, usize),
    ParseError,
>)
    requires
        pos <= tokens@.len(),
    ensures
        r matches Ok(p) ==> pos < p.1 <= tokens@.len(),
{
    let n = tokens.len();
    let name = match ident_at(tokens, pos) {
        Some(s) => s,
        None => {
            return Err(ParseError::UnexpectedToken);
        },
    };
    let (params, after_params) = match parse_parameter_list(tokens, pos + 1) {
        Ok(p) => p,
        Err(e) => {
            return Err(e);
        },
    };
    if after_params >= n {
        return Err(ParseError::UnexpectedEnd);
    }
    match &tokens[after_params] {
        LangToken::Colon => {},
        _ => {
            return Err(ParseError::UnexpectedToken);
        },
    }
    let (rt, after_ty) = match parse_type(tokens, after_params + 1) {
        Ok(p) => p,
        Err(e) => {
            return Err(e);
        },
    };
    if after_ty >= n {
        return Err(ParseError::UnexpectedEnd);
    }
    match &tokens[after_ty] {
        LangToken::Semicolon => {},
        _ => {
            return Err(ParseError::UnexpectedToken);
        },
    }
    Ok((MethodSignature { name, params, return_type: rt }, after_ty + 1))
}

/// Parses one trait declaration: `trait Name { signature* }`.
fn parse_trait_declaration(tokens: &[LangToken], pos: usize) -> (r: Result<
    (Declaration, usize),
    ParseError,
>)
    requires
        pos <= tokens@.len(),
    ensures
        r matches Ok(p) ==> pos < p.1 <= tokens@.len(),
{
    let n = tokens.len();
    if pos >= n {
        return Err(ParseError::UnexpectedEnd);
    }
    let name = match ident_at(tokens, pos + 1) {
        Some(s) => s,
        None => {
            return Err(ParseError::UnexpectedToken);
        },
    };
    if pos + 2 >= n {
        return Err(ParseError::UnexpectedEnd);
    }
    match &tokens[pos + 2] {
        LangToken::LBrace => {},
        _ => {
            return Err(ParseError::UnexpectedToken);
        },
    }
    let mut methods: Vec<MethodSignature> = Vec::new();
    let mut cur = pos + 3;
    loop
        invariant
            pos < cur <= tokens@.len(),
            tokens@.len() == n,
        decreases n - cur,
    {
        if cur >= n {
            return Err(ParseError::UnexpectedEnd);
        }
        match &tokens[cur] {
            LangToken::RBrace => {
                return Ok((Declaration::TraitDecl(TraitDecl { name, methods }), cur + 1));
            },
            _ => {},
        }
        let (m, next) = match parse_method_signature(tokens, cur) {
            Ok(p) => p,
            Err(e) => {
                return Err(e);
            },
        };
        methods.push(m);
        cur = next;
    }
}

/// Parses one constructor: `constructor ( params ) { body }`, after any
/// access modifier.
fn parse_constructor_declaration(
    tokens: &[LangToken],
    pos: usize,
    access_modifier: Option<AccessModifier>,
) -> (r: Result<(ClassMember, usize), ParseError>)
    requires
        pos <= tokens@.len(),
    ensures
        r matches Ok(p) ==> pos < p.1 <= tokens@.len(),
{
    if pos >= tokens.len() {
        return Err(ParseError::UnexpectedEnd);
    }
    let (params, after_params) = match parse_parameter_list(tokens, pos + 1) {
        Ok(p) => p,
        Err(e) => {
            return Err(e);
        },
    };
    let (body, after_body) = match parse_block(tokens, after_params) {
        Ok(p) => p,
        Err(e) => {
            return Err(e);
        },
    };
    Ok((ClassMember::Constructor(ConstructorDecl { access_modifier, params, body }), after_body))
}

/// Parses one abstract method: `abstract name ( params ) : type ;`,
/// after the `abstract` keyword.
fn parse_abstract_method_declaration(tokens: &[LangToken], pos: usize) -> (r: Result<
    (ClassMember, usize),
    ParseError,
>)
    requires
        pos <= tokens@.len(),
    ensures
        r matches Ok(p) ==> pos < p.1 <= tokens@.len(),
{
    if pos >= tokens.len() {
        return Err(ParseError::UnexpectedEnd);
    }
    let (sig, after) = match parse_method_signature(tokens, pos + 1) {
        Ok(p) => p,
        Err(e) => {
            return Err(e);
        },
    };
    Ok((ClassMember::AbstractMethod(sig), after))
}

/// Parses one property: `name : type = expr ;`, after any modifiers.
fn parse_property_declaration(
    tokens: &[LangToken],
    pos: usize,
    access_modifier: Option<AccessModifier>,
    is_static: bool,
    name: String,
) -> (r: Result<(ClassMember, usize), ParseError>)
    requires
        pos <= tokens@.len(),
    ensures
        r matches Ok(p) ==> pos < p.1 <= tokens@.len(),
{
    let n = tokens.len();
    if pos >= n {
        return Err(ParseError::UnexpectedEnd);
    }
    match &tokens[pos] {
        LangToken::Colon => {},
        _ => {
            return Err(ParseError::UnexpectedToken);
        },
    }
    let (t, after_ty) = match parse_type(tokens, pos + 1) {
        Ok(p) => p,
        Err(e) => {
            return Err(e);
        },
    };
    if after_ty >= n {
        return Err(ParseError::UnexpectedEnd);
    }
    match &tokens[after_ty] {
        LangToken::Assign => {},
        _ => {
            return Err(ParseError::UnexpectedToken);
        },
    }
    let (e, after_expr) = match parse_expression(tokens, after_ty + 1) {
        Ok(p) => p,
        Err(e) => {
            return Err(e);
        },
    };
    if after_expr >= n {
        return Err(ParseError::UnexpectedEnd);
    }
    match &tokens[after_expr] {
        LangToken::Semicolon => {},
        _ => {
            return Err(ParseError::UnexpectedToken);
        },
    }
    Ok(
        (
            ClassMember::Property(
                PropertyDecl { access_modifier, is_static, name, type_: t, initializer: e },
            ),
            after_expr + 1,
        ),
    )
}

/// Parses one concrete method: `name ( params ) : type { body }`, after
/// any modifiers.
fn parse_method_declaration(
    tokens: &[LangToken],
    pos: usize,
    access_modifier: Option<AccessModifier>,
    is_static: bool,
    name: String,
) -> (r: Result<(ClassMember, usize), ParseError>)
    requires
        pos <= tokens@.len(),
    ensures
        r matches Ok(p) ==> pos < p.1 <= tokens@.len(),
{
    let n = tokens.len();
    let (params, after_params) = match parse_parameter_list(tokens, pos) {
        Ok(p) => p,
        Err(e) => {
            return Err(e);
        },
    };
    if after_params >= n {
        return Err(ParseError::UnexpectedEnd);
    }
    match &tokens[after_params] {
        LangToken::Colon => {},
        _ => {
            return Err(ParseError::UnexpectedToken);
        },
    }
    let (rt, after_ty) = match parse_type(tokens, after_params + 1) {
        Ok(p) => p,
        Err(e) => {
            return Err(e);
        },
    };
    let (body, after_body) = match parse_block(tokens, after_ty) {
        Ok(p) => p,
        Err(e) => {
            return Err(e);
        },
    };
    Ok(
        (
            ClassMember::Method(
                MethodDecl { access_modifier, is_static, name, params, return_type: rt, body },
            ),
            after_body,
        ),
    )
}

/// Parses one class member: a constructor, an abstract method, a
/// property, or a concrete method, each with optional modifiers.
fn parse_class_member(tokens: &[LangToken], pos: usize) -> (r: Result<
    (ClassMember, usize),
    ParseError,
>)
    requires
        pos <= tokens@.len(),
    ensures
        r matches Ok(p) ==> pos < p.1 <= tokens@.len(),
{
    let n = tokens.len();
    let (access_modifier, mut cur) = parse_access_modifier(tokens, pos);
    let mut is_static = false;
    if at_word(tokens, cur, "static") {
        is_static = true;
        cur = cur + 1;
    }
    if at_word(tokens, cur, "constructor") {
        let (m, next) = match parse_constructor_declaration(tokens, cur, access_modifier) {
            Ok(p) => p,
            Err(e) => {
                return Err(e);
            },
        };
        if next <= pos {
            return Err(ParseError::UnexpectedToken);
        }
        return Ok((m, next));
    }
    if at_word(tokens, cur, "abstract") {
        let (m, next) = match parse_abstract_method_declaration(tokens, cur) {
            Ok(p) => p,
            Err(e) => {
                return Err(e);
            },
        };
        if next <= pos {
            return Err(ParseError::UnexpectedToken);
        }
        return Ok((m, next));
    }
    let name = match ident_at(tokens, cur) {
        Some(s) => s,
        None => {
            return Err(ParseError::UnexpectedToken);
        },
    };
    if cur + 1 >= n {
        return Err(ParseError::UnexpectedEnd);
    }
    let colon_next = match &tokens[cur + 1] {
        LangToken::Colon => true,
        _ => false,
    };
    let r = if colon_next {
        parse_property_declaration(tokens, cur + 1, access_modifier, is_static, name)
    } else {
        parse_method_declaration(tokens, cur + 1, access_modifier, is_static, name)
    };
    match r {
        Ok((m, next)) => {
            if next <= pos {
                return Err(ParseError::UnexpectedToken);
            }
            Ok((m, next))
        },
        Err(e) => Err(e),
    }
}

/// Parses one class declaration: any access modifier, `class Name`, an
/// optional `extends Super`, then a braced member list.
fn parse_class_declaration(tokens: &[LangToken], pos: usize) -> (r: Result<
    (Declaration, usize),
    ParseError,
>)
    requires
        pos <= tokens@.len(),
    ensures
        r matches Ok(p) ==> pos < p.1 <= tokens@.len(),
{
    let n = tokens.len();
    let (access_modifier, cur) = parse_access_modifier(tokens, pos);
    if !at_word(tokens, cur, "class") {
        return Err(ParseError::UnexpectedToken);
    }
    let name = match ident_at(tokens, cur + 1) {
        Some(s) => s,
        None => {
            return Err(ParseError::UnexpectedToken);
        },
    };
    let mut body_pos = cur + 2;
    let mut superclass: Option<String> = None;
    if at_word(tokens, body_pos, "extends") {
        if body_pos + 1 > n {
            return Err(ParseError::UnexpectedEnd);
        }
        superclass = match ident_at(tokens, body_pos + 1) {
            Some(s) => Some(s),
            None => {
                return Err(ParseError::UnexpectedToken);
            },
        };
        body_pos = body_pos + 2;
    }
    if body_pos >= n {
        return Err(ParseError::UnexpectedEnd);
    }
    match &tokens[body_pos] {
        LangToken::LBrace => {},
        _ => {
            return Err(ParseError::UnexpectedToken);
        },
    }
    let mut members: Vec<ClassMember> = Vec::new();
    let mut m_cur = body_pos + 1;
    loop
        invariant
            pos < m_cur <= tokens@.len(),
            tokens@.len() == n,
        decreases n - m_cur,
    {
        if m_cur >= n {
            return Err(ParseError::UnexpectedEnd);
        }
        match &tokens[m_cur] {
            LangToken::RBrace => {
                return Ok(
                    (
                        Declaration::ClassDecl(
                            ClassDecl { access_modifier, name, superclass, members },
                        ),
                        m_cur + 1,
                    ),
                );
            },
            _ => {},
        }
        let (m, next) = match parse_class_member(tokens, m_cur) {
            Ok(p) => p,
            Err(e) => {
                return Err(e);
            },
        };
        if next <= m_cur {
            return Err(ParseError::UnexpectedToken);
        }
        members.push(m);
        m_cur = next;
    }
}

/// Parses one top-level declaration.
fn parse_declaration(tokens: &[LangToken], pos: usize) -> (r: Result<
    (Declaration, usize),
    ParseError,
>)
    requires
        pos <= tokens@.len(),
    ensures
        r matches Ok(p) ==> pos < p.1 <= tokens@.len(),
{
    if at_word(tokens, pos, "trait") {
        parse_trait_declaration(tokens, pos)
    } else {
        parse_class_declaration(tokens, pos)
    }
}

/// The number of declarations a program holds.
pub open spec fn decl_count(p: Program) -> nat {
    match p {
        Program::Declarations(ds) => ds@.len(),
    }
}

/// Parses a whole token stream into a program. An empty stream is the
/// empty program; a nonempty stream yields at least one declaration or
/// an error.
pub fn parse_program(tokens: &[LangToken]) -> (r: Result<Program, ParseError>)
    ensures
        tokens@.len() == 0 ==> (r matches Ok(p) && decl_count(p) == 0),
        r matches Ok(p) ==> (tokens@.len() > 0 ==> decl_count(p) > 0),
{
    let mut decls: Vec<Declaration> = Vec::new();
    let mut pos: usize = 0;
    let n = tokens.len();
    while pos < n
        invariant
            pos <= tokens@.len(),
            tokens@.len() == n,
            (decls@.len() == 0) == (pos == 0),
        decreases n - pos,
    {
        let (d, next) = match parse_declaration(tokens, pos) {
            Ok(p) => p,
            Err(e) => {
                return Err(e);
            },
        };
        decls.push(d);
        pos = next;
    }
    Ok(Program::Declarations(decls))
}

/// The parser type for the class-and-trait language; [`parse`] is the
/// usual entry point.
pub struct MyLanguageParser;

impl MyLanguageParser {
    /// Parses source text into a program; the same as the free
    /// [`parse`].
    pub fn parse(source: &str) -> (r: Result<Program, ParseError>) {
        parse(source)
    }
}

/// Parses source text into a program: the lexer, then the
/// declaration grammar — trait declarations with method signatures and
/// class declarations with constructors, properties, methods and
/// abstract methods.
pub fn parse(source: &str) -> (r: Result<Program, ParseError>) {
    let tokens = match tokenize(source) {
        Ok(t) => t,
        Err(e) => {
            return Err(e);
        },
    };
    parse_program(tokens.as_slice())
}

} // verus!
