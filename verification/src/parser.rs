//! The source-language parser and byte-code emission walk.  The grammar the
//! parser accepts is a sequence of function declarations of the form
//! `int <name> ( ) { }`, ended by the end-marker token; the program node it
//! builds wraps the last declaration (or a function named `main` when there
//! is none), always with an empty statement list.  The emission walk turns
//! statements into instruction/value pairs and those into bytes.

use vstd::prelude::*;

use crate::instr::Instruction;
use crate::lexer::Token;
use crate::vm::le_bytes_of_i64;

verus! {

/// A node of the abstract syntax tree.
#[derive(Debug)]
pub enum ASTNode {
    FunDecl(String, Vec<Statement>),
    Prog(Box<ASTNode>),
}

/// One statement of a function body.
#[derive(Debug)]
pub enum Statement {
    Exp(Expression),
    Return(Box<Expression>),
}

/// One expression: today only an integer literal.
#[derive(Debug)]
pub enum Expression {
    Num(i64),
}

/// An instruction paired with an optional immediate and an optional
/// not-yet-resolved function name.
pub struct InstrValuePair {
    pub instr: Instruction,
    pub value: Option<i64>,
    pub fn_name: Option<String>,
}

/// The offset recorded for `name`, if any: the first matching entry.
pub open spec fn lookup_offset(m: Seq<(String, usize)>, name: Seq<char>) -> Option<usize>
    decreases m.len(),
{
    if m.len() == 0 {
        None
    } else if m[0].0@ == name {
        Some(m[0].1)
    } else {
        lookup_offset(m.skip(1), name)
    }
}

impl InstrValuePair {
    /// The bytes this pair contributes: its opcode byte, its immediate's
    /// little-endian bytes when it has one, and an 8-byte placeholder when
    /// it carries an unresolved function name.
    pub open spec fn bytes_spec(self) -> Seq<u8> {
        seq![self.instr.opcode_spec()] + (match self.value {
            Some(v) => le_bytes_of_i64(v),
            None => Seq::empty(),
        }) + (match self.fn_name {
            Some(_) => Seq::new(8, |i: int| 0u8),
            None => Seq::empty(),
        })
    }

    /// Resolve this pair's function name against the recorded offsets:
    /// when the name is recorded, its offset becomes the immediate.
    pub fn process(&mut self, fn_offsets: &Vec<(String, usize)>)
        ensures
            final(self).instr == old(self).instr,
            final(self).fn_name == old(self).fn_name,
            final(self).value == (match old(self).fn_name {
                Some(name) => match lookup_offset(fn_offsets@, name@) {
                    Some(off) => Some(crate::vm::i64_from_u64(off as u64)),
                    None => old(self).value,
                },
                None => old(self).value,
            }),
    {
        let fn_name = match &self.fn_name {
            Some(n) => n.clone(),
            None => {
                return ;
            },
        };
        let mut k: usize = 0;
        proof {
            assert(fn_offsets@.skip(0) =~= fn_offsets@);
        }
        while k < fn_offsets.len()
            invariant
                0 <= k <= fn_offsets.len(),
                self == old(self),
                old(self).fn_name matches Some(name) && name@ == fn_name@,
                old(self).fn_name matches Some(name) && lookup_offset(fn_offsets@, name@)
                    == lookup_offset(fn_offsets@.skip(k as int), name@),
            decreases fn_offsets.len() - k,
        {
            proof {
                assert(fn_offsets@.skip(k as int)[0] == fn_offsets@[k as int]);
                assert(fn_offsets@.skip(k as int).skip(1) =~= fn_offsets@.skip(k as int + 1));
            }
            if fn_offsets[k].0 == fn_name {
                let off = fn_offsets[k].1;
                self.value = Some(crate::vm::i64_cast(off as u64));
                return ;
            }
            k += 1;
        }
    }

    /// The bytes of this pair, as [`Self::bytes_spec`] says.
    pub fn to_bytes(&self) -> (r: Vec<u8>)
        ensures
            r@ == self.bytes_spec(),
    {
        let mut out: Vec<u8> = Vec::new();
        out.push(self.instr.opcode());
        if let Some(value) = self.value {
            crate::vm::push_le_bytes(&mut out, value);
        }
        if let Some(_fn_name) = &self.fn_name {
            let mut k: usize = 0;
            let ghost mid = out@;
            while k < 8
                invariant
                    0 <= k <= 8,
                    out@ == mid + Seq::new(k as nat, |i: int| 0u8),
                decreases 8 - k,
            {
                out.push(0);
                proof {
                    assert(out@ =~= mid + Seq::new(k as nat + 1, |i: int| 0u8));
                }
                k += 1;
            }
        }
        proof {
            assert(out@ =~= self.bytes_spec());
        }
        out
    }
}

/// The instruction/value pairs one expression contributes: push its value.
pub open spec fn expr_pairs(e: Expression) -> Seq<InstrValuePair> {
    match e {
        Expression::Num(n) => seq![
            InstrValuePair { instr: Instruction::Push, value: Some(n), fn_name: None },
        ],
    }
}

/// The pairs one statement contributes: its expression's pairs, and for a
/// return statement the return instruction after them.
pub open spec fn stmt_pairs(st: Statement) -> Seq<InstrValuePair> {
    match st {
        Statement::Exp(e) => expr_pairs(e),
        Statement::Return(e) => expr_pairs(*e).push(
            InstrValuePair { instr: Instruction::Ret, value: None, fn_name: None },
        ),
    }
}

/// The pairs of the first `k` statements, in order.
pub open spec fn stmts_pairs(sts: Seq<Statement>, k: int) -> Seq<InstrValuePair>
    decreases k,
{
    if k <= 0 {
        Seq::empty()
    } else {
        stmts_pairs(sts, k - 1) + stmt_pairs(sts[k - 1])
    }
}

/// The bytes of the first `k` pairs, in order.
pub open spec fn pairs_bytes(ps: Seq<InstrValuePair>, k: int) -> Seq<u8>
    decreases k,
{
    if k <= 0 {
        Seq::empty()
    } else {
        pairs_bytes(ps, k - 1) + ps[k - 1].bytes_spec()
    }
}

/// The bytes a node emits: a function declaration emits its statements'
/// pairs, a program node emits what it wraps.
pub open spec fn node_bytes(n: ASTNode) -> Seq<u8>
    decreases n,
{
    match n {
        ASTNode::FunDecl(_, stmts) => {
            let ps = stmts_pairs(stmts@, stmts@.len() as int);
            pairs_bytes(ps, ps.len() as int)
        },
        ASTNode::Prog(node) => node_bytes(*node),
    }
}

impl Expression {
    /// Append this expression's pairs.
    pub fn visit(&self, pairs: &mut Vec<InstrValuePair>)
        ensures
            final(pairs)@ == old(pairs)@ + expr_pairs(*self),
    {
        match self {
            Expression::Num(num) => {
                pairs.push(
                    InstrValuePair { instr: Instruction::Push, value: Some(*num), fn_name: None },
                );
                proof {
                    assert(final(pairs)@ =~= old(pairs)@ + expr_pairs(*self));
                }
            },
        }
    }
}

impl Statement {
    /// Append this statement's pairs.
    pub fn visit(&self, pairs: &mut Vec<InstrValuePair>)
        ensures
            final(pairs)@ == old(pairs)@ + stmt_pairs(*self),
    {
        match self {
            Statement::Exp(exp) => {
                exp.visit(pairs);
            },
            Statement::Return(exp) => {
                exp.visit(pairs);
                pairs.push(
                    InstrValuePair { instr: Instruction::Ret, value: None, fn_name: None },
                );
                proof {
                    assert(final(pairs)@ =~= old(pairs)@ + stmt_pairs(*self));
                }
            },
        }
    }
}

impl ASTNode {
    /// Append the bytes this node emits, as [`node_bytes`] says: each
    /// declared function's pairs are resolved against the offsets recorded
    /// so far, then turned into bytes.
    pub fn emit(&self, instrs: &mut Vec<u8>)
        ensures
            final(instrs)@ == old(instrs)@ + node_bytes(*self),
        decreases *self,
    {
        let mut functions: Vec<(String, Vec<InstrValuePair>)> = Vec::new();
        match self {
            ASTNode::FunDecl(name, stmts) => {
                let mut pairs: Vec<InstrValuePair> = Vec::new();
                let mut k: usize = 0;
                while k < stmts.len()
                    invariant
                        0 <= k <= stmts.len(),
                        pairs@ == stmts_pairs(stmts@, k as int),
                    decreases stmts.len() - k,
                {
                    stmts[k].visit(&mut pairs);
                    k += 1;
                }
                functions.push((name.clone(), pairs));
            },
            ASTNode::Prog(node) => {
                node.emit(instrs);
            },
        }
        let ghost emitted = instrs@;
        let mut fn_offsets: Vec<(String, usize)> = Vec::new();
        let mut offset: usize = 0;
        let mut f: usize = 0;
        while f < functions.len()
            invariant
                0 <= f <= functions.len(),
                functions@.len() <= 1,
                fn_offsets@.len() == f,
                f == 0 ==> instrs@ == emitted,
                f == 0 ==> offset == 0,
                f > 0 ==> (self matches ASTNode::FunDecl(_, stmts) && instrs@ == emitted
                    + pairs_bytes(
                    stmts_pairs(stmts@, stmts@.len() as int),
                    stmts_pairs(stmts@, stmts@.len() as int).len() as int,
                )),
                f > 0 ==> self is FunDecl,
                self matches ASTNode::FunDecl(_, stmts) ==> (functions@.len() == 1
                    && functions@[0].1@ == stmts_pairs(stmts@, stmts@.len() as int)),
                self is Prog ==> functions@.len() == 0,
            decreases functions.len() - f,
        {
            let (name, pairs) = &functions[f];
            let ghost before = instrs@;
            let ghost ps = pairs@;
            let mut p: usize = 0;
            while p < pairs.len()
                invariant
                    0 <= p <= pairs.len(),
                    pairs@ == ps,
                    fn_offsets@.len() == 0,
                    instrs@ == before + pairs_bytes(ps, p as int),
                decreases pairs.len() - p,
            {
                let mut pair = InstrValuePair {
                    instr: pairs[p].instr,
                    value: pairs[p].value,
                    fn_name: match &pairs[p].fn_name {
                        Some(n) => Some(n.clone()),
                        None => None,
                    },
                };
                proof {
                    assert(pair.bytes_spec() == ps[p as int].bytes_spec());
                }
                pair.process(&fn_offsets);
                proof {
                    assert(pair.value == ps[p as int].value);
                    assert(pair.bytes_spec() == ps[p as int].bytes_spec());
                }
                let mut bytes = pair.to_bytes();
                instrs.append(&mut bytes);
                p += 1;
                proof {
                    assert(instrs@ =~= before + pairs_bytes(ps, p as int));
                }
            }
            fn_offsets.push((name.clone(), offset));
            offset += instrs.len();
            f += 1;
        }
        proof {
            assert(final(instrs)@ =~= old(instrs)@ + node_bytes(*self));
        }
    }
}


/// One function-declaration block of tokens: `int <name> ( ) { }`.
pub open spec fn is_fun_block(ts: Seq<Token>) -> bool {
    &&& ts.len() == 6
    &&& ts[0] is Int
    &&& ts[1] is Identifier
    &&& ts[2] is OpenParen
    &&& ts[3] is CloseParen
    &&& ts[4] is OpenBrace
    &&& ts[5] is CloseBrace
}

/// Whether the parse succeeds: declaration blocks in sequence until the
/// end marker (anything after it is left unread) or the end of the stream.
pub open spec fn parseable(ts: Seq<Token>) -> bool
    decreases ts.len(),
{
    if ts.len() == 0 {
        true
    } else if ts[0] is End {
        true
    } else {
        ts.len() >= 6 && is_fun_block(ts.take(6)) && parseable(ts.skip(6))
    }
}

/// The name of the program node the parse returns: the last declaration
/// read before the end marker, or the fallback when none was.
pub open spec fn parsed_name(ts: Seq<Token>, fallback: Seq<char>) -> Seq<char>
    decreases ts.len(),
{
    if ts.len() < 6 || ts[0] is End {
        fallback
    } else {
        parsed_name(ts.skip(6), ts[1]->Identifier_0@)
    }
}

/// Parse a token stream into a program node wrapping one function
/// declaration, named by [`parsed_name`] and with an empty body.  Only
/// streams that [`parseable`] admits are in the domain.
pub fn parse(tokens: Vec<Token>) -> (r: ASTNode)
    requires
        parseable(tokens@),
    ensures
        r matches ASTNode::Prog(f) && (*f) matches ASTNode::FunDecl(name, stmts) && name@
            == parsed_name(tokens@, "main"@) && stmts@ == Seq::<Statement>::empty(),
{
    let ghost orig = tokens@;
    let mut tokens = tokens;
    let mut name = String::from_str("main");
    let mut done = false;
    proof {
        reveal_strlit("main");
    }
    while !done && tokens.len() > 0
        invariant
            !done ==> parseable(tokens@),
            !done ==> parsed_name(orig, "main"@) == parsed_name(tokens@, name@),
            done ==> parsed_name(orig, "main"@) == name@,
        decreases tokens@.len() + (if done { 0int } else { 1int }),
    {
        let ghost pre = tokens@;
        match tokens.remove(0) {
            Token::Int => {
                proof {
                    assert(pre.take(6)[0] == pre[0]);
                    assert(!(pre[0] is End));
                    assert(pre.len() >= 6 && is_fun_block(pre.take(6)));
                    assert(pre.take(6)[1] == pre[1]);
                    assert(pre.take(6)[2] == pre[2]);
                    assert(pre.take(6)[3] == pre[3]);
                    assert(pre.take(6)[4] == pre[4]);
                    assert(pre.take(6)[5] == pre[5]);
                    assert(tokens@ =~= pre.skip(1));
                }
                let newname = match tokens.remove(0) {
                    Token::Identifier(n) => n,
                    _ => {
                        proof {
                            assert(pre.skip(1)[0] == pre[1]);
                        }
                        unreached()
                    },
                };
                proof {
                    assert(tokens@ =~= pre.skip(2));
                    assert(newname@ == pre[1]->Identifier_0@);
                }
                match tokens.remove(0) {
                    Token::OpenParen => {},
                    _ => {
                        proof {
                            assert(pre.skip(2)[0] == pre[2]);
                        }
                        unreached()
                    },
                }
                proof {
                    assert(tokens@ =~= pre.skip(3));
                }
                match tokens.remove(0) {
                    Token::CloseParen => {},
                    _ => {
                        proof {
                            assert(pre.skip(3)[0] == pre[3]);
                        }
                        unreached()
                    },
                }
                proof {
                    assert(tokens@ =~= pre.skip(4));
                }
                match tokens.remove(0) {
                    Token::OpenBrace => {},
                    _ => {
                        proof {
                            assert(pre.skip(4)[0] == pre[4]);
                        }
                        unreached()
                    },
                }
                proof {
                    assert(tokens@ =~= pre.skip(5));
                }
                match tokens.remove(0) {
                    Token::CloseBrace => {},
                    _ => {
                        proof {
                            assert(pre.skip(5)[0] == pre[5]);
                        }
                        unreached()
                    },
                }
                name = newname;
                proof {
                    assert(tokens@ =~= pre.skip(6));
                }
            },
            Token::End => {
                proof {
                    assert(!(pre.len() == 0));
                    assert(parsed_name(pre, name@) == name@);
                }
                done = true;
            },
            _ => {
                proof {
                    assert(pre[0] is Int || pre[0] is End) by {
                        if pre.len() >= 6 {
                            assert(pre.take(6)[0] == pre[0]);
                        }
                    }
                }
                unreached()
            },
        }
    }
    ASTNode::Prog(Box::new(ASTNode::FunDecl(name, Vec::new())))
}

} // verus!
