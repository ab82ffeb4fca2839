//! A small script language over the machine: `let` assignments,
//! arithmetic and comparisons, compiled to straight-line bytecode with a
//! scratch-memory slot per variable.

use crate::fhescript::CompileError;
use crate::value::Value;
use crate::vm::OpCode;
use vstd::prelude::*;
use vstd::string::StrSliceExecFns;

verus! {

/// What can stop the script parser.
#[derive(Debug, Clone, Copy, PartialEq, Eq, Structural)]
pub enum ScriptError {
    /// A byte outside the language's alphabet, or non-ASCII input.
    UnexpectedCharacter,
    /// A numeral too large for a 32-bit literal.
    NumberTooLarge,
    /// A token that fits no production at this point.
    UnexpectedToken,
    /// The token stream ended inside a production.
    UnexpectedEnd,
}

/// A script token.
#[derive(Debug, Clone, PartialEq, Eq)]
enum ScriptToken {
    Word(String),
    Number(i32),
    LParen,
    RParen,
    LBrace,
    RBrace,
    Semicolon,
    Assign,
    Plus,
    Minus,
    Star,
    Slash,
    CmpGt,
    CmpLt,
    CmpEq,
    CmpNeq,
    CmpGte,
    CmpLte,
}

/// A node of the script's syntax tree.
#[derive(Debug, PartialEq)]
pub enum ASTNode {
    Number(i32),
    Statement { expr: Box<ASTNode> },
    Factor { id: Box<ASTNode>, expr: Box<ASTNode> },
    Term { op: char, left: Box<ASTNode>, right: Box<ASTNode> },
    BooleanExpression { op: String, left: Box<ASTNode>, right: Box<ASTNode> },
    ArithmeticExpression { op: char, left: Box<ASTNode>, right: Box<ASTNode> },
    Variable(String),
    Assignment { name: String, value: Box<ASTNode> },
    If { condition: Box<ASTNode>, then_branch: Vec<ASTNode> },
    Ignore,
}

/// The address a name is bound to, if any.
pub open spec fn spec_lookup(vars: Seq<(Seq<char>, i32)>, name: Seq<char>) -> Option<i32>
    decreases vars.len(),
{
    if vars.len() == 0 {
        None
    } else if vars[0].0 == name {
        Some(vars[0].1)
    } else {
        spec_lookup(vars.skip(1), name)
    }
}

/// Allocating a variable: an existing name keeps its address and changes
/// nothing; a new name takes the next address, which then advances. Once
/// the address space is exhausted the last address is reused and nothing
/// is recorded.
pub open spec fn spec_alloc(vars: Seq<(Seq<char>, i32)>, next: i32, name: Seq<char>) -> (
    i32,
    Seq<(Seq<char>, i32)>,
    i32,
) {
    match spec_lookup(vars, name) {
        Some(a) => (a, vars, next),
        None => {
            if next == i32::MAX {
                (i32::MAX, vars, next)
            } else {
                (next, vars.push((name, next)), (next + 1) as i32)
            }
        },
    }
}

/// The compiler's variable table: each name maps to one scratch-memory
/// address, handed out in order of first appearance.
pub struct CompilerContext {
    variables: Vec<(String, i32)>,
    next_var_address: i32,
}

impl CompilerContext {
    /// The bindings, as (name, address) pairs in allocation order.
    pub closed spec fn vars_view(&self) -> Seq<(Seq<char>, i32)> {
        self.variables@.map_values(|p: (String, i32)| (p.0@, p.1))
    }

    /// The next address to hand out.
    pub closed spec fn next_view(&self) -> i32 {
        self.next_var_address
    }

    /// A fresh table with no bindings, handing out addresses from 0.
    pub fn new() -> (ctx: Self)
        ensures
            ctx.vars_view() == Seq::<(Seq<char>, i32)>::empty(),
            ctx.next_view() == 0,
    {
        let ctx = CompilerContext { variables: Vec::new(), next_var_address: 0 };
        proof {
            assert(ctx.vars_view() =~= Seq::<(Seq<char>, i32)>::empty());
        }
        ctx
    }

    /// Allocates a new variable or returns the existing address; exactly
    /// [`spec_alloc`] on the table.
    pub fn alloc_var(&mut self, name: &str) -> (r: i32)
        ensures
            ({
                let (a, vars2, next2) = spec_alloc(
                    old(self).vars_view(),
                    old(self).next_view(),
                    name@,
                );
                r == a && final(self).vars_view() == vars2 && final(self).next_view() == next2
            }),
    {
        let n = self.variables.len();
        let mut i: usize = 0;
        proof {
            assert(self.vars_view().skip(0) =~= self.vars_view());
        }
        while i < n
            invariant
                i <= n,
                self.variables@.len() == n,
                spec_lookup(self.vars_view(), name@) == spec_lookup(
                    self.vars_view().skip(i as int),
                    name@,
                ),
            decreases n - i,
        {
            proof {
                assert(self.vars_view().skip(i as int)[0] == (
                    self.variables@[i as int].0@,
                    self.variables@[i as int].1,
                ));
                assert(self.vars_view().skip(i as int).skip(1) =~= self.vars_view().skip(i + 1));
            }
            let hit = {
                let p = &self.variables[i];
                p.0 == name.to_owned()
            };
            if hit {
                let a = self.variables[i].1;
                return a;
            }
            i = i + 1;
        }
        proof {
            assert(self.vars_view().skip(n as int) =~= Seq::<(Seq<char>, i32)>::empty());
        }
        if self.next_var_address == i32::MAX {
            return i32::MAX;
        }
        let address = self.next_var_address;
        self.variables.push((name.to_owned(), address));
        self.next_var_address = address + 1;
        proof {
            assert(self.vars_view() =~= old(self).vars_view().push((name@, address)));
        }
        address
    }
}

/// The bytecode one script node compiles to, threading the variable
/// table through: `(code, table, next address)` on success. Conditional
/// control flow has no straight-line compilation and is rejected; so is
/// an operator outside the script's set, and a negative literal.
pub open spec fn spec_compile_node(
    node: ASTNode,
    vars: Seq<(Seq<char>, i32)>,
    next: i32,
) -> Result<(Seq<OpCode>, Seq<(Seq<char>, i32)>, i32), CompileError>
    decreases node,
{
    match node {
        ASTNode::Statement { expr } => spec_compile_node(*expr, vars, next),
        ASTNode::Factor { id, expr } => match spec_compile_node(*id, vars, next) {
            Ok((c1, v1, n1)) => match spec_compile_node(*expr, v1, n1) {
                Ok((c2, v2, n2)) => Ok((c1 + c2, v2, n2)),
                Err(e) => Err(e),
            },
            Err(e) => Err(e),
        },
        ASTNode::Term { op, left, right } => match spec_compile_node(*left, vars, next) {
            Ok((c1, v1, n1)) => match spec_compile_node(*right, v1, n1) {
                Ok((c2, v2, n2)) => match spec_arith_opcode(op) {
                    Some(oc) => Ok((c1 + c2 + seq![oc], v2, n2)),
                    None => Err(CompileError::UnsupportedConstruct),
                },
                Err(e) => Err(e),
            },
            Err(e) => Err(e),
        },
        ASTNode::ArithmeticExpression { op, left, right } => match spec_compile_node(
            *left,
            vars,
            next,
        ) {
            Ok((c1, v1, n1)) => match spec_compile_node(*right, v1, n1) {
                Ok((c2, v2, n2)) => match spec_arith_opcode(op) {
                    Some(oc) => Ok((c1 + c2 + seq![oc], v2, n2)),
                    None => Err(CompileError::UnsupportedConstruct),
                },
                Err(e) => Err(e),
            },
            Err(e) => Err(e),
        },
        ASTNode::BooleanExpression { op, left, right } => match spec_compile_node(
            *left,
            vars,
            next,
        ) {
            Ok((c1, v1, n1)) => match spec_compile_node(*right, v1, n1) {
                Ok((c2, v2, n2)) => match spec_compare_opcode(op@) {
                    Some(oc) => Ok((c1 + c2 + seq![oc], v2, n2)),
                    None => Err(CompileError::UnsupportedConstruct),
                },
                Err(e) => Err(e),
            },
            Err(e) => Err(e),
        },
        ASTNode::Number(v) => {
            if v < 0 {
                Err(CompileError::NegativeLiteral)
            } else {
                Ok((seq![OpCode::Push(Value::Uint32(v as u32))], vars, next))
            }
        },
        ASTNode::Variable(name) => {
            let (a, v2, n2) = spec_alloc(vars, next, name@);
            Ok((seq![OpCode::Load(a)], v2, n2))
        },
        ASTNode::Assignment { name, value } => {
            let (a, v2, n2) = spec_alloc(vars, next, name@);
            match spec_compile_node(*value, v2, n2) {
                Ok((c, v3, n3)) => Ok((c + seq![OpCode::Store(a)], v3, n3)),
                Err(e) => Err(e),
            }
        },
        ASTNode::If { .. } => Err(CompileError::UnsupportedConstruct),
        ASTNode::Ignore => Ok((Seq::empty(), vars, next)),
    }
}

/// The instruction an arithmetic operator character names, if any.
pub open spec fn spec_arith_opcode(op: char) -> Option<OpCode> {
    if op == '+' {
        Some(OpCode::Add)
    } else if op == '-' {
        Some(OpCode::Sub)
    } else if op == '*' {
        Some(OpCode::Mul)
    } else if op == '/' {
        Some(OpCode::Div)
    } else {
        None
    }
}

/// The instruction a comparison operator names, if any.
pub open spec fn spec_compare_opcode(op: Seq<char>) -> Option<OpCode> {
    if op.len() == 1 && op[0] == '>' {
        Some(OpCode::Gt)
    } else if op.len() == 1 && op[0] == '<' {
        Some(OpCode::Lt)
    } else if op.len() == 2 && op[0] == '=' && op[1] == '=' {
        Some(OpCode::Eq)
    } else if op.len() == 2 && op[0] == '!' && op[1] == '=' {
        Some(OpCode::Neq)
    } else if op.len() == 2 && op[0] == '>' && op[1] == '=' {
        Some(OpCode::Gte)
    } else if op.len() == 2 && op[0] == '<' && op[1] == '=' {
        Some(OpCode::Lte)
    } else {
        None
    }
}

/// The bytecode a node sequence compiles to, in order, threading the
/// variable table.
pub open spec fn spec_compile_nodes(
    nodes: Seq<ASTNode>,
    vars: Seq<(Seq<char>, i32)>,
    next: i32,
) -> Result<(Seq<OpCode>, Seq<(Seq<char>, i32)>, i32), CompileError>
    decreases nodes.len(),
{
    if nodes.len() == 0 {
        Ok((Seq::empty(), vars, next))
    } else {
        match spec_compile_node(nodes[0], vars, next) {
            Ok((c, v1, n1)) => match spec_compile_nodes(nodes.skip(1), v1, n1) {
                Ok((rest, v2, n2)) => Ok((c + rest, v2, n2)),
                Err(e) => Err(e),
            },
            Err(e) => Err(e),
        }
    }
}

/// The instruction an arithmetic operator character names.
fn arith_opcode(op: char) -> (r: Option<OpCode>)
    ensures
        r == spec_arith_opcode(op),
{
    if op == '+' {
        Some(OpCode::Add)
    } else if op == '-' {
        Some(OpCode::Sub)
    } else if op == '*' {
        Some(OpCode::Mul)
    } else if op == '/' {
        Some(OpCode::Div)
    } else {
        None
    }
}

/// Compiles one node against the variable table; see
/// [`spec_compile_node`].
pub fn compile_node(node: &ASTNode, context: &mut CompilerContext) -> (r: Result<
    Vec<OpCode>,
    CompileError,
>)
    ensures
        match spec_compile_node(*node, old(context).vars_view(), old(context).next_view()) {
            Ok(p) => r is Ok && r->Ok_0@ == p.0 && final(context).vars_view() == p.1
                && final(context).next_view() == p.2,
            Err(e) => r == Err::<Vec<OpCode>, CompileError>(e),
        },
    decreases *node, 1int,
{
    match node {
        ASTNode::Statement { expr } => compile_node(expr, context),
        ASTNode::Factor { .. } => compile_factor(node, context),
        ASTNode::Term { .. } => compile_binary(node, context),
        ASTNode::ArithmeticExpression { .. } => compile_binary(node, context),
        ASTNode::BooleanExpression { .. } => compile_boolean(node, context),
        ASTNode::Assignment { .. } => compile_assignment(node, context),
        _ => compile_leaf(node, context),
    }
}

/// The `Factor` case: the identifier's code, then the expression's.
fn compile_factor(node: &ASTNode, context: &mut CompilerContext) -> (r: Result<
    Vec<OpCode>,
    CompileError,
>)
    requires
        node is Factor,
    ensures
        match spec_compile_node(*node, old(context).vars_view(), old(context).next_view()) {
            Ok(p) => r is Ok && r->Ok_0@ == p.0 && final(context).vars_view() == p.1
                && final(context).next_view() == p.2,
            Err(e) => r == Err::<Vec<OpCode>, CompileError>(e),
        },
    decreases *node, 0int,
{
    match node {
        ASTNode::Factor { id, expr } => {
            let mut code = match compile_node(id, context) {
                Ok(c) => c,
                Err(e) => {
                    return Err(e);
                },
            };
            let mut c2 = match compile_node(expr, context) {
                Ok(c) => c,
                Err(e) => {
                    return Err(e);
                },
            };
            code.append(&mut c2);
            Ok(code)
        },
        _ => Err(CompileError::UnsupportedConstruct),
    }
}

/// The `Term` and `ArithmeticExpression` cases: both operands' code,
/// then the operator's instruction.
fn compile_binary(node: &ASTNode, context: &mut CompilerContext) -> (r: Result<
    Vec<OpCode>,
    CompileError,
>)
    requires
        node is Term || node is ArithmeticExpression,
    ensures
        match spec_compile_node(*node, old(context).vars_view(), old(context).next_view()) {
            Ok(p) => r is Ok && r->Ok_0@ == p.0 && final(context).vars_view() == p.1
                && final(context).next_view() == p.2,
            Err(e) => r == Err::<Vec<OpCode>, CompileError>(e),
        },
    decreases *node, 0int,
{
    let (op, left, right) = match node {
        ASTNode::Term { op, left, right } => (op, left, right),
        ASTNode::ArithmeticExpression { op, left, right } => (op, left, right),
        _ => {
            return Err(CompileError::UnsupportedConstruct);
        },
    };
    let mut code = match compile_node(left, context) {
        Ok(c) => c,
        Err(e) => {
            return Err(e);
        },
    };
    let mut c2 = match compile_node(right, context) {
        Ok(c) => c,
        Err(e) => {
            return Err(e);
        },
    };
    code.append(&mut c2);
    match arith_opcode(*op) {
        Some(oc) => {
            let ghost cc = code@;
            code.push(oc);
            proof {
                assert(code@ =~= cc + seq![oc]);
            }
            Ok(code)
        },
        None => Err(CompileError::UnsupportedConstruct),
    }
}

/// The `BooleanExpression` case: both operands' code, then the
/// comparison instruction.
fn compile_boolean(node: &ASTNode, context: &mut CompilerContext) -> (r: Result<
    Vec<OpCode>,
    CompileError,
>)
    requires
        node is BooleanExpression,
    ensures
        match spec_compile_node(*node, old(context).vars_view(), old(context).next_view()) {
            Ok(p) => r is Ok && r->Ok_0@ == p.0 && final(context).vars_view() == p.1
                && final(context).next_view() == p.2,
            Err(e) => r == Err::<Vec<OpCode>, CompileError>(e),
        },
    decreases *node, 0int,
{
    match node {
        ASTNode::BooleanExpression { op, left, right } => {
            let mut code = match compile_node(left, context) {
                Ok(c) => c,
                Err(e) => {
                    return Err(e);
                },
            };
            let mut c2 = match compile_node(right, context) {
                Ok(c) => c,
                Err(e) => {
                    return Err(e);
                },
            };
            code.append(&mut c2);
            let oc = if *op == ">".to_owned() {
                proof {
                    reveal_strlit(">");
                    assert(op@ =~= seq!['>']);
                }
                OpCode::Gt
            } else if *op == "<".to_owned() {
                proof {
                    reveal_strlit("<");
                    assert(op@ =~= seq!['<']);
                }
                OpCode::Lt
            } else if *op == "==".to_owned() {
                proof {
                    reveal_strlit("==");
                    assert(op@ =~= seq!['=', '=']);
                }
                OpCode::Eq
            } else if *op == "!=".to_owned() {
                proof {
                    reveal_strlit("!=");
                    assert(op@ =~= seq!['!', '=']);
                }
                OpCode::Neq
            } else if *op == ">=".to_owned() {
                proof {
                    reveal_strlit(">=");
                    assert(op@ =~= seq!['>', '=']);
                }
                OpCode::Gte
            } else if *op == "<=".to_owned() {
                proof {
                    reveal_strlit("<=");
                    assert(op@ =~= seq!['<', '=']);
                }
                OpCode::Lte
            } else {
                proof {
                    reveal_strlit(">");
                    reveal_strlit("<");
                    reveal_strlit("==");
                    reveal_strlit("!=");
                    reveal_strlit(">=");
                    reveal_strlit("<=");
                    assert(">"@ =~= seq!['>']);
                    assert("<"@ =~= seq!['<']);
                    assert("=="@ =~= seq!['=', '=']);
                    assert("!="@ =~= seq!['!', '=']);
                    assert(">="@ =~= seq!['>', '=']);
                    assert("<="@ =~= seq!['<', '=']);
                    if op@.len() == 1 {
                        if op@[0] == '>' {
                            assert(op@ =~= ">"@);
                        }
                        if op@[0] == '<' {
                            assert(op@ =~= "<"@);
                        }
                    }
                    if op@.len() == 2 {
                        if op@[0] == '=' && op@[1] == '=' {
                            assert(op@ =~= "=="@);
                        }
                        if op@[0] == '!' && op@[1] == '=' {
                            assert(op@ =~= "!="@);
                        }
                        if op@[0] == '>' && op@[1] == '=' {
                            assert(op@ =~= ">="@);
                        }
                        if op@[0] == '<' && op@[1] == '=' {
                            assert(op@ =~= "<="@);
                        }
                    }
                }
                return Err(CompileError::UnsupportedConstruct);
            };
            let ghost cc = code@;
            code.push(oc);
            proof {
                assert(code@ =~= cc + seq![oc]);
            }
            Ok(code)
        },
        _ => Err(CompileError::UnsupportedConstruct),
    }
}

/// The `Assignment` case: allocate the slot, compile the value, store.
fn compile_assignment(node: &ASTNode, context: &mut CompilerContext) -> (r: Result<
    Vec<OpCode>,
    CompileError,
>)
    requires
        node is Assignment,
    ensures
        match spec_compile_node(*node, old(context).vars_view(), old(context).next_view()) {
            Ok(p) => r is Ok && r->Ok_0@ == p.0 && final(context).vars_view() == p.1
                && final(context).next_view() == p.2,
            Err(e) => r == Err::<Vec<OpCode>, CompileError>(e),
        },
    decreases *node, 0int,
{
    match node {
        ASTNode::Assignment { name, value } => {
            let address = context.alloc_var(name.as_str());
            proof {
                let (a, v2, n2) = spec_alloc(
                    old(context).vars_view(),
                    old(context).next_view(),
                    name@,
                );
                assert(address == a);
                assert(context.vars_view() == v2);
                assert(context.next_view() == n2);
            }
            let mut code = match compile_node(value, context) {
                Ok(c) => c,
                Err(e) => {
                    return Err(e);
                },
            };
            let ghost cc = code@;
            code.push(OpCode::Store(address));
            proof {
                assert(code@ =~= cc + seq![OpCode::Store(address)]);
            }
            Ok(code)
        },
        _ => Err(CompileError::UnsupportedConstruct),
    }
}

/// The leaf cases: literals, variable loads, the rejected `if`, and the
/// empty `Ignore`.
fn compile_leaf(node: &ASTNode, context: &mut CompilerContext) -> (r: Result<
    Vec<OpCode>,
    CompileError,
>)
    requires
        node is Number || node is Variable || node is If || node is Ignore,
    ensures
        match spec_compile_node(*node, old(context).vars_view(), old(context).next_view()) {
            Ok(p) => r is Ok && r->Ok_0@ == p.0 && final(context).vars_view() == p.1
                && final(context).next_view() == p.2,
            Err(e) => r == Err::<Vec<OpCode>, CompileError>(e),
        },
    decreases *node, 0int,
{
    match node {
        ASTNode::Number(v) => {
            if *v < 0 {
                Err(CompileError::NegativeLiteral)
            } else {
                let code = vec![OpCode::Push(Value::Uint32(*v as u32))];
                proof {
                    assert(code@ =~= seq![OpCode::Push(Value::Uint32(*v as u32))]);
                }
                Ok(code)
            }
        },
        ASTNode::Variable(name) => {
            let address = context.alloc_var(name.as_str());
            let code = vec![OpCode::Load(address)];
            proof {
                assert(code@ =~= seq![OpCode::Load(address)]);
            }
            Ok(code)
        },
        ASTNode::If { .. } => Err(CompileError::UnsupportedConstruct),
        _ => {
            let code: Vec<OpCode> = Vec::new();
            proof {
                assert(code@ =~= Seq::<OpCode>::empty());
            }
            Ok(code)
        },
    }
}

/// Compiles a whole script — a series of nodes — against a fresh
/// variable table; see [`spec_compile_nodes`].
pub fn compile_program(program: &[ASTNode]) -> (r: Result<Vec<OpCode>, CompileError>)
    ensures
        match spec_compile_nodes(program@, Seq::empty(), 0) {
            Ok(p) => r is Ok && r->Ok_0@ == p.0,
            Err(e) => r == Err::<Vec<OpCode>, CompileError>(e),
        },
{
    let mut context = CompilerContext::new();
    let mut out: Vec<OpCode> = Vec::new();
    let mut i: usize = 0;
    let n = program.len();
    proof {
        assert(program@.skip(0) =~= program@);
        if spec_compile_nodes(program@, Seq::empty(), 0) is Ok {
            assert(out@ + spec_compile_nodes(program@, Seq::empty(), 0)->Ok_0.0
                =~= spec_compile_nodes(program@, Seq::empty(), 0)->Ok_0.0);
        }
    }
    while i < n
        invariant
            i <= program@.len(),
            program@.len() == n,
            spec_compile_nodes(program@, Seq::empty(), 0) == (match spec_compile_nodes(
                program@.skip(i as int),
                context.vars_view(),
                context.next_view(),
            ) {
                Ok(p) => Ok::<(Seq<OpCode>, Seq<(Seq<char>, i32)>, i32), CompileError>(
                    (out@ + p.0, p.1, p.2),
                ),
                Err(e) => Err(e),
            }),
        decreases n - i,
    {
        proof {
            assert(program@.skip(i as int)[0] == program@[i as int]);
            assert(program@.skip(i as int).skip(1) =~= program@.skip(i + 1));
        }
        let ghost v0 = context.vars_view();
        let ghost n0 = context.next_view();
        let mut c = match compile_node(&program[i], &mut context) {
            Ok(c) => c,
            Err(e) => {
                return Err(e);
            },
        };
        proof {
            if spec_compile_nodes(program@.skip(i + 1), context.vars_view(), context.next_view())
                is Ok {
                let rest = spec_compile_nodes(
                    program@.skip(i + 1),
                    context.vars_view(),
                    context.next_view(),
                )->Ok_0.0;
                assert((out@ + c@) + rest =~= out@ + (c@ + rest));
            }
        }
        out.append(&mut c);
        i = i + 1;
    }
    proof {
        assert(program@.skip(n as int) =~= Seq::<ASTNode>::empty());
        if spec_compile_nodes(program@, Seq::empty(), 0) is Ok {
            assert(out@ + Seq::<OpCode>::empty() =~= out@);
        }
    }
    Ok(out)
}



/// Splits ASCII script text into tokens; two-character comparison
/// operators are taken greedily.
fn tokenize_script(input: &str) -> (r: Result<Vec<ScriptToken>, ScriptError>)
    ensures
        input@.len() == 0 ==> (r matches Ok(t) && t@.len() == 0),
{
    if !input.is_ascii() {
        proof {
            if input@.len() == 0 {
                assert(vstd::string::is_ascii(input)) by {
                    assert(forall|k: int| 0 <= k < input@.len() ==> '\0' <= #[trigger] input@[k]
                        <= '\u{7f}');
                };
            }
        }
        return Err(ScriptError::UnexpectedCharacter);
    }
    let bs = input.as_bytes();
    let n = bs.len();
    proof {
        broadcast use vstd::string::is_ascii_spec_bytes;

        assert(bs@.len() == input@.len());
    }
    let mut toks: Vec<ScriptToken> = Vec::new();
    let mut i: usize = 0;
    while i < n
        invariant
            i <= n,
            bs@.len() == n,
            bs@.len() == input@.len(),
            input.is_ascii(),
            input@.len() == 0 ==> toks@.len() == 0,
        decreases n - i,
    {
        let b = bs[i];
        if b == 32 || b == 10 || b == 13 || b == 9 {
            i = i + 1;
        } else if 48 <= b && b <= 57 {
            let mut j = i + 1;
            let mut acc: i32 = (b - 48) as i32;
            while j < n && 48 <= bs[j] && bs[j] <= 57
                invariant
                    i < j <= n,
                    bs@.len() == n,
                    bs@.len() == input@.len(),
                    0 <= acc,
                decreases n - j,
            {
                if acc > 0x0ccc_cccci32 {
                    return Err(ScriptError::NumberTooLarge);
                }
                let d = (bs[j] - 48) as i32;
                if acc * 10 > i32::MAX - d {
                    return Err(ScriptError::NumberTooLarge);
                }
                acc = acc * 10 + d;
                j = j + 1;
            }
            toks.push(ScriptToken::Number(acc));
            i = j;
        } else if (97 <= b && b <= 122) || (65 <= b && b <= 90) || b == 95 {
            let mut j = i + 1;
            while j < n && ((97 <= bs[j] && bs[j] <= 122) || (65 <= bs[j] && bs[j] <= 90) || (48
                <= bs[j] && bs[j] <= 57) || bs[j] == 95)
                invariant
                    i < j <= n,
                    bs@.len() == n,
                    bs@.len() == input@.len(),
                    input.is_ascii(),
                decreases n - j,
            {
                j = j + 1;
            }
            let word = input.substring_ascii(i, j).to_owned();
            toks.push(ScriptToken::Word(word));
            i = j;
        } else if b == 61 && i + 1 < n && bs[i + 1] == 61 {
            toks.push(ScriptToken::CmpEq);
            i = i + 2;
        } else if b == 33 && i + 1 < n && bs[i + 1] == 61 {
            toks.push(ScriptToken::CmpNeq);
            i = i + 2;
        } else if b == 62 && i + 1 < n && bs[i + 1] == 61 {
            toks.push(ScriptToken::CmpGte);
            i = i + 2;
        } else if b == 60 && i + 1 < n && bs[i + 1] == 61 {
            toks.push(ScriptToken::CmpLte);
            i = i + 2;
        } else {
            let t = if b == 40 {
                ScriptToken::LParen
            } else if b == 41 {
                ScriptToken::RParen
            } else if b == 123 {
                ScriptToken::LBrace
            } else if b == 125 {
                ScriptToken::RBrace
            } else if b == 59 {
                ScriptToken::Semicolon
            } else if b == 61 {
                ScriptToken::Assign
            } else if b == 43 {
                ScriptToken::Plus
            } else if b == 45 {
                ScriptToken::Minus
            } else if b == 42 {
                ScriptToken::Star
            } else if b == 47 {
                ScriptToken::Slash
            } else if b == 62 {
                ScriptToken::CmpGt
            } else if b == 60 {
                ScriptToken::CmpLt
            } else {
                return Err(ScriptError::UnexpectedCharacter);
            };
            toks.push(t);
            i = i + 1;
        }
    }
    Ok(toks)
}

/// Parses one script factor: a numeral or a variable reference.
fn parse_script_factor(tokens: &[ScriptToken], pos: usize) -> (r: Result<
    (ASTNode, usize),
    ScriptError,
>)
    requires
        pos <= tokens@.len(),
    ensures
        r matches Ok(p) ==> pos < p.1 <= tokens@.len(),
{
    if pos >= tokens.len() {
        return Err(ScriptError::UnexpectedEnd);
    }
    match &tokens[pos] {
        ScriptToken::Number(v) => Ok((ASTNode::Number(*v), pos + 1)),
        ScriptToken::Word(w) => Ok((ASTNode::Variable(w.clone()), pos + 1)),
        _ => Err(ScriptError::UnexpectedToken),
    }
}

/// Parses one script term: factors joined by `*` and `/`.
fn parse_script_term(tokens: &[ScriptToken], pos: usize) -> (r: Result<
    (ASTNode, usize),
    ScriptError,
>)
    requires
        pos <= tokens@.len(),
    ensures
        r matches Ok(p) ==> pos < p.1 <= tokens@.len(),
{
    let (first, mut cur) = match parse_script_factor(tokens, pos) {
        Ok(p) => p,
        Err(e) => {
            return Err(e);
        },
    };
    let mut node = first;
    let n = tokens.len();
    while cur < n
        invariant
            pos < cur <= tokens@.len(),
            tokens@.len() == n,
        decreases n - cur,
    {
        let op = match &tokens[cur] {
            ScriptToken::Star => '*',
            ScriptToken::Slash => '/',
            _ => {
                break ;
            },
        };
        let (right, next) = match parse_script_factor(tokens, cur + 1) {
            Ok(p) => p,
            Err(e) => {
                return Err(e);
            },
        };
        node = ASTNode::Term { op, left: Box::new(node), right: Box::new(right) };
        cur = next;
    }
    Ok((node, cur))
}

/// Parses one script arithmetic expression: terms joined by `+` and `-`.
fn parse_script_expression(tokens: &[ScriptToken], pos: usize) -> (r: Result<
    (ASTNode, usize),
    ScriptError,
>)
    requires
        pos <= tokens@.len(),
    ensures
        r matches Ok(p) ==> pos < p.1 <= tokens@.len(),
{
    let (first, mut cur) = match parse_script_term(tokens, pos) {
        Ok(p) => p,
        Err(e) => {
            return Err(e);
        },
    };
    let mut node = first;
    let n = tokens.len();
    while cur < n
        invariant
            pos < cur <= tokens@.len(),
            tokens@.len() == n,
        decreases n - cur,
    {
        let op = match &tokens[cur] {
            ScriptToken::Plus => '+',
            ScriptToken::Minus => '-',
            _ => {
                break ;
            },
        };
        let (right, next) = match parse_script_term(tokens, cur + 1) {
            Ok(p) => p,
            Err(e) => {
                return Err(e);
            },
        };
        node = ASTNode::ArithmeticExpression { op, left: Box::new(node), right: Box::new(right) };
        cur = next;
    }
    Ok((node, cur))
}

/// Parses one comparison: `expr cmp expr`.
fn parse_script_boolean(tokens: &[ScriptToken], pos: usize) -> (r: Result<
    (ASTNode, usize),
    ScriptError,
>)
    requires
        pos <= tokens@.len(),
    ensures
        r matches Ok(p) ==> pos < p.1 <= tokens@.len(),
{
    let n = tokens.len();
    let (left, after_left) = match parse_script_expression(tokens, pos) {
        Ok(p) => p,
        Err(e) => {
            return Err(e);
        },
    };
    if after_left >= n {
        return Err(ScriptError::UnexpectedEnd);
    }
    let op: &str = match &tokens[after_left] {
        ScriptToken::CmpGt => ">",
        ScriptToken::CmpLt => "<",
        ScriptToken::CmpEq => "==",
        ScriptToken::CmpNeq => "!=",
        ScriptToken::CmpGte => ">=",
        ScriptToken::CmpLte => "<=",
        _ => {
            return Err(ScriptError::UnexpectedToken);
        },
    };
    let (right, after_right) = match parse_script_expression(tokens, after_left + 1) {
        Ok(p) => p,
        Err(e) => {
            return Err(e);
        },
    };
    Ok(
        (
            ASTNode::BooleanExpression {
                op: op.to_owned(),
                left: Box::new(left),
                right: Box::new(right),
            },
            after_right,
        ),
    )
}

/// Parses one script statement: `let name = expr ;` or an `if` with a
/// braced body of statements.
fn parse_script_statement(tokens: &[ScriptToken], pos: usize) -> (r: Result<
    (ASTNode, usize),
    ScriptError,
>)
    requires
        pos <= tokens@.len(),
    ensures
        r matches Ok(p) ==> pos < p.1 <= tokens@.len(),
    decreases tokens@.len() - pos,
{
    let n = tokens.len();
    if pos >= n {
        return Err(ScriptError::UnexpectedEnd);
    }
    let head = match &tokens[pos] {
        ScriptToken::Word(w) => w.clone(),
        _ => {
            return Err(ScriptError::UnexpectedToken);
        },
    };
    if head == "let".to_owned() {
        if pos + 1 >= n {
            return Err(ScriptError::UnexpectedEnd);
        }
        let name = match &tokens[pos + 1] {
            ScriptToken::Word(w) => w.clone(),
            _ => {
                return Err(ScriptError::UnexpectedToken);
            },
        };
        if pos + 2 >= n {
            return Err(ScriptError::UnexpectedEnd);
        }
        match &tokens[pos + 2] {
            ScriptToken::Assign => {},
            _ => {
                return Err(ScriptError::UnexpectedToken);
            },
        }
        let (value, after_expr) = match parse_script_expression(tokens, pos + 3) {
            Ok(p) => p,
            Err(e) => {
                return Err(e);
            },
        };
        if after_expr >= n {
            return Err(ScriptError::UnexpectedEnd);
        }
        match &tokens[after_expr] {
            ScriptToken::Semicolon => {},
            _ => {
                return Err(ScriptError::UnexpectedToken);
            },
        }
        Ok((ASTNode::Assignment { name, value: Box::new(value) }, after_expr + 1))
    } else if head == "if".to_owned() {
        if pos + 1 >= n {
            return Err(ScriptError::UnexpectedEnd);
        }
        match &tokens[pos + 1] {
            ScriptToken::LParen => {},
            _ => {
                return Err(ScriptError::UnexpectedToken);
            },
        }
        let (condition, after_cond) = match parse_script_boolean(tokens, pos + 2) {
            Ok(p) => p,
            Err(e) => {
                return Err(e);
            },
        };
        if after_cond >= n {
            return Err(ScriptError::UnexpectedEnd);
        }
        match &tokens[after_cond] {
            ScriptToken::RParen => {},
            _ => {
                return Err(ScriptError::UnexpectedToken);
            },
        }
        if after_cond + 1 >= n {
            return Err(ScriptError::UnexpectedEnd);
        }
        match &tokens[after_cond + 1] {
            ScriptToken::LBrace => {},
            _ => {
                return Err(ScriptError::UnexpectedToken);
            },
        }
        let mut then_branch: Vec<ASTNode> = Vec::new();
        let mut cur = after_cond + 2;
        loop
            invariant
                pos < cur <= tokens@.len(),
                tokens@.len() == n,
            decreases n - cur,
        {
            if cur >= n {
                return Err(ScriptError::UnexpectedEnd);
            }
            match &tokens[cur] {
                ScriptToken::RBrace => {
                    return Ok(
                        (
                            ASTNode::If { condition: Box::new(condition), then_branch },
                            cur + 1,
                        ),
                    );
                },
                _ => {},
            }
            let (stmt, next) = match parse_script_statement(tokens, cur) {
                Ok(p) => p,
                Err(e) => {
                    return Err(e);
                },
            };
            then_branch.push(stmt);
            cur = next;
        }
    } else {
        Err(ScriptError::UnexpectedToken)
    }
}

/// The parser type for the script language; [`parse_stackscript`] is
/// the usual entry point.
pub struct StackScriptParser;

impl StackScriptParser {
    /// Parses script source into a statement list; the same as the free
    /// [`parse_stackscript`].
    pub fn parse(code: &str) -> (r: Result<Vec<ASTNode>, ScriptError>) {
        parse_stackscript(code)
    }
}

/// Parses script source into a statement list: `let` assignments over
/// arithmetic expressions and `if` statements over one comparison, with
/// braced bodies.
pub fn parse_stackscript(code: &str) -> (r: Result<Vec<ASTNode>, ScriptError>)
    ensures
        code@.len() == 0 ==> (r matches Ok(nodes) && nodes@.len() == 0),
{
    let tokens = match tokenize_script(code) {
        Ok(t) => t,
        Err(e) => {
            return Err(e);
        },
    };
    let mut nodes: Vec<ASTNode> = Vec::new();
    let mut pos: usize = 0;
    let n = tokens.len();
    while pos < n
        invariant
            pos <= tokens@.len(),
            tokens@.len() == n,
            code@.len() == 0 ==> n == 0,
            (nodes@.len() == 0) == (pos == 0),
        decreases n - pos,
    {
        let (stmt, next) = match parse_script_statement(tokens.as_slice(), pos) {
            Ok(p) => p,
            Err(e) => {
                return Err(e);
            },
        };
        nodes.push(stmt);
        pos = next;
    }
    Ok(nodes)
}

} // verus!
