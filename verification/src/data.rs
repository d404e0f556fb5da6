//! The shared vocabulary of the compiler and the virtual machine:
//! AST nodes, runtime values, bytecode instructions and dump frames,
//! together with the mathematical views that the contracts speak of.

use std::rc::Rc;
use vstd::prelude::*;

verus! {

/// Source position (line, column) attached to every AST node and
/// propagated onto every instruction derived from it.
#[derive(Clone, Copy, PartialEq, Eq, Structural, Debug)]
pub struct Info {
    pub line: u64,
    pub col: u64,
}

/// An abstract syntax tree node: an integer literal, a symbol, or an
/// ordered list of nodes, each carrying its source position.
pub struct AST {
    pub sexpr: SExpr,
    pub info: Info,
}

pub enum SExpr {
    Int(i32),
    Atom(String),
    List(Vec<AST>),
}

/// One bytecode instruction. Code blocks embedded in `LDF` and `SEL`
/// are shared by reference so that duplicating an instruction never
/// copies a code payload.
pub enum CodeOP {
    LET(String),
    LD(String),
    LDC(Rc<Lisp>),
    LDF(Rc<Vec<String>>, Rc<Code>),
    RET,
    AP,
    RAP,
    ARGS(usize),
    PUTS,
    SEL(Rc<Code>, Rc<Code>),
    JOIN,
    EQ,
    ADD,
    SUB,
    CONS,
    CAR,
    CDR,
}

/// An instruction together with the source position of the AST node
/// that produced it.
pub struct CodeOPInfo {
    pub info: Info,
    pub op: CodeOP,
}

/// An ordered, immutable-once-built instruction sequence.
pub type Code = Vec<CodeOPInfo>;

/// A runtime value. Values are shared by reference counting and are
/// immutable once constructed.
pub enum Lisp {
    Int(i32),
    Nil,
    True,
    False,
    Cons(Rc<Lisp>, Rc<Lisp>),
    List(Vec<Rc<Lisp>>),
    Closure(Rc<Vec<String>>, Rc<Code>, Env),
}

/// The flat environment: identifier-to-value bindings in insertion
/// order; a later pair for the same identifier shadows an earlier one.
pub type Env = Vec<(String, Rc<Lisp>)>;

/// A continuation frame: the registers saved by an application (`AP`,
/// `RAP`) or by a conditional (`SEL`). A saved code cursor is a shared
/// code block together with the offset of the next instruction.
pub enum DumpOP {
    DumpAP(Vec<Rc<Lisp>>, Env, Rc<Code>, usize),
    DumpSEL(Rc<Code>, usize),
}

// ---------------------------------------------------------------------
// Mathematical views
// ---------------------------------------------------------------------

/// The view of a runtime value: integers as `int`, identifiers as
/// character sequences, environments as maps.
#[verifier::ext_equal]
pub enum LispV {
    Int(int),
    Nil,
    True,
    False,
    Cons(Box<LispV>, Box<LispV>),
    List(Seq<LispV>),
    Closure(Seq<Seq<char>>, Seq<CodeOPInfoV>, Map<Seq<char>, LispV>),
}

/// The view of one instruction payload.
#[verifier::ext_equal]
pub enum CodeOPV {
    LET(Seq<char>),
    LD(Seq<char>),
    LDC(LispV),
    LDF(Seq<Seq<char>>, Seq<CodeOPInfoV>),
    RET,
    AP,
    RAP,
    ARGS(int),
    PUTS,
    SEL(Seq<CodeOPInfoV>, Seq<CodeOPInfoV>),
    JOIN,
    EQ,
    ADD,
    SUB,
    CONS,
    CAR,
    CDR,
}

/// The view of an instruction with its source position.
#[verifier::ext_equal]
pub struct CodeOPInfoV {
    pub info: Info,
    pub op: CodeOPV,
}

/// View of a sequence of identifiers.
pub open spec fn ids_v(s: Seq<String>) -> Seq<Seq<char>> {
    s.map_values(|x: String| x@)
}

/// View of a runtime value.
pub open spec fn lisp_v(l: Lisp) -> LispV
    decreases l,
{
    match l {
        Lisp::Int(n) => LispV::Int(n as int),
        Lisp::Nil => LispV::Nil,
        Lisp::True => LispV::True,
        Lisp::False => LispV::False,
        Lisp::Cons(a, d) => LispV::Cons(Box::new(lisp_v(*a)), Box::new(lisp_v(*d))),
        Lisp::List(vs) => LispV::List(lisp_seq_v(vs@)),
        Lisp::Closure(ps, body, env) => LispV::Closure(ids_v(ps@), code_v(body@), env_v(env@)),
    }
}

/// View of a sequence of shared runtime values.
pub open spec fn lisp_seq_v(s: Seq<Rc<Lisp>>) -> Seq<LispV>
    decreases s,
{
    if s.len() == 0 {
        Seq::empty()
    } else {
        lisp_seq_v(s.subrange(0, s.len() - 1)).push(lisp_v(*s[s.len() - 1]))
    }
}

/// View of an environment: the map that the bindings denote, a later
/// binding shadowing an earlier one for the same identifier.
pub open spec fn env_v(s: Seq<(String, Rc<Lisp>)>) -> Map<Seq<char>, LispV>
    decreases s,
{
    if s.len() == 0 {
        Map::empty()
    } else {
        env_v(s.subrange(0, s.len() - 1)).insert(s[s.len() - 1].0@, lisp_v(*s[s.len() - 1].1))
    }
}

/// View of an instruction payload.
pub open spec fn op_v(op: CodeOP) -> CodeOPV
    decreases op,
{
    match op {
        CodeOP::LET(id) => CodeOPV::LET(id@),
        CodeOP::LD(id) => CodeOPV::LD(id@),
        CodeOP::LDC(l) => CodeOPV::LDC(lisp_v(*l)),
        CodeOP::LDF(ps, body) => CodeOPV::LDF(ids_v(ps@), code_v(body@)),
        CodeOP::RET => CodeOPV::RET,
        CodeOP::AP => CodeOPV::AP,
        CodeOP::RAP => CodeOPV::RAP,
        CodeOP::ARGS(n) => CodeOPV::ARGS(n as int),
        CodeOP::PUTS => CodeOPV::PUTS,
        CodeOP::SEL(t, f) => CodeOPV::SEL(code_v(t@), code_v(f@)),
        CodeOP::JOIN => CodeOPV::JOIN,
        CodeOP::EQ => CodeOPV::EQ,
        CodeOP::ADD => CodeOPV::ADD,
        CodeOP::SUB => CodeOPV::SUB,
        CodeOP::CONS => CodeOPV::CONS,
        CodeOP::CAR => CodeOPV::CAR,
        CodeOP::CDR => CodeOPV::CDR,
    }
}

/// View of one positioned instruction.
pub open spec fn instr_v(c: CodeOPInfo) -> CodeOPInfoV
    decreases c,
{
    CodeOPInfoV { info: c.info, op: op_v(c.op) }
}

/// View of an instruction sequence.
pub open spec fn code_v(s: Seq<CodeOPInfo>) -> Seq<CodeOPInfoV>
    decreases s,
{
    if s.len() == 0 {
        Seq::empty()
    } else {
        code_v(s.subrange(0, s.len() - 1)).push(instr_v(s[s.len() - 1]))
    }
}

// ---------------------------------------------------------------------
// Structural equality
// ---------------------------------------------------------------------

/// Structural equality of runtime values: integers by value, the three
/// constants by tag, pairs by recursive comparison of both components,
/// argument lists element by element. Two closures never compare equal;
/// that choice is consistent and deterministic.
pub open spec fn eq_v(a: LispV, b: LispV) -> bool
    decreases a,
{
    match (a, b) {
        (LispV::Int(n), LispV::Int(m)) => n == m,
        (LispV::Nil, LispV::Nil) => true,
        (LispV::True, LispV::True) => true,
        (LispV::False, LispV::False) => true,
        (LispV::Cons(a1, d1), LispV::Cons(a2, d2)) => eq_v(*a1, *a2) && eq_v(*d1, *d2),
        (LispV::List(x), LispV::List(y)) => eq_seq_v(x, y),
        _ => false,
    }
}

/// Structural equality of value sequences, element by element.
pub open spec fn eq_seq_v(x: Seq<LispV>, y: Seq<LispV>) -> bool
    decreases x,
{
    if x.len() != y.len() {
        false
    } else if x.len() == 0 {
        true
    } else {
        eq_v(x[0], y[0]) && eq_seq_v(
            x.subrange(1, x.len() as int),
            y.subrange(1, y.len() as int),
        )
    }
}

/// Element-by-element characterisation of `eq_seq_v`.
pub proof fn lemma_eq_seq_v_pointwise(x: Seq<LispV>, y: Seq<LispV>)
    ensures
        eq_seq_v(x, y) <==> (x.len() == y.len() && forall|i: int|
            0 <= i < x.len() ==> eq_v(x[i], y[i])),
    decreases x.len(),
{
    if x.len() == y.len() && x.len() > 0 {
        let xt = x.subrange(1, x.len() as int);
        let yt = y.subrange(1, y.len() as int);
        lemma_eq_seq_v_pointwise(xt, yt);
        assert(forall|i: int| 0 <= i < xt.len() ==> xt[i] == x[i + 1] && yt[i] == y[i + 1]);
        if eq_v(x[0], y[0]) && forall|i: int| 0 <= i < xt.len() ==> eq_v(xt[i], yt[i]) {
            assert(forall|i: int| 1 <= i < x.len() ==> eq_v(xt[i - 1], yt[i - 1]) && xt[i - 1]
                == x[i] && yt[i - 1] == y[i]);
            assert(forall|i: int| 0 <= i < x.len() ==> eq_v(x[i], y[i]));
        }
    }
}

/// Runtime structural equality, the decision procedure behind `EQ`.
#[verifier::loop_isolation(false)]
pub fn val_eq(a: &Lisp, b: &Lisp) -> (r: bool)
    ensures
        r == eq_v(lisp_v(*a), lisp_v(*b)),
    decreases *a,
{
    match a {
        Lisp::Int(n) => match b {
            Lisp::Int(m) => n == m,
            _ => false,
        },
        Lisp::Nil => match b {
            Lisp::Nil => true,
            _ => false,
        },
        Lisp::True => match b {
            Lisp::True => true,
            _ => false,
        },
        Lisp::False => match b {
            Lisp::False => true,
            _ => false,
        },
        Lisp::Cons(a1, d1) => match b {
            Lisp::Cons(a2, d2) => val_eq(&**a1, &**a2) && val_eq(&**d1, &**d2),
            _ => false,
        },
        Lisp::List(x) => match b {
            Lisp::List(y) => {
            let ghost xs = lisp_seq_v(x@);
            let ghost ys = lisp_seq_v(y@);
            proof {
                lemma_lisp_seq_v_len(x@);
                lemma_lisp_seq_v_len(y@);
                lemma_eq_seq_v_pointwise(xs, ys);
            }
            if x.len() != y.len() {
                false
            } else {
                let n = x.len();
                let mut i: usize = 0;
                while i < n
                    invariant
                        n == x.len() == y.len(),
                        xs == lisp_seq_v(x@),
                        ys == lisp_seq_v(y@),
                        xs.len() == ys.len() == n,
                        0 <= i <= n,
                        forall|j: int| 0 <= j < i ==> eq_v(xs[j], ys[j]),
                    decreases n - i,
                {
                    proof {
                        lemma_lisp_seq_v_index(x@, i as int);
                        lemma_lisp_seq_v_index(y@, i as int);
                        assert(*a == Lisp::List(*x));
                        assert(decreases_to!(*a => *x));
                        assert(decreases_to!(*x => x@));
                        assert(decreases_to!(x@ => x@[i as int]));
                        assert(decreases_to!(*a => x@[i as int]));
                    }
                    if !val_eq(&*x[i], &*y[i]) {
                        proof {
                            lemma_eq_seq_v_pointwise(xs, ys);
                            assert(!eq_v(xs[i as int], ys[i as int]));
                            assert(lisp_v(*a) == LispV::List(xs));
                            assert(lisp_v(*b) == LispV::List(ys));
                            assert(!eq_seq_v(xs, ys));
                        }
                        return false;
                    }
                    i = i + 1;
                }
                proof {
                    lemma_eq_seq_v_pointwise(xs, ys);
                }
                true
            }
            },
            _ => false,
        },
        _ => false,
    }
}

// ---------------------------------------------------------------------
// View lemmas
// ---------------------------------------------------------------------

/// The view of a value sequence has the same length.
pub proof fn lemma_lisp_seq_v_len(s: Seq<Rc<Lisp>>)
    ensures
        lisp_seq_v(s).len() == s.len(),
    decreases s,
{
    if s.len() > 0 {
        lemma_lisp_seq_v_len(s.subrange(0, s.len() - 1));
    }
}

/// The view of a value sequence is element-wise.
pub proof fn lemma_lisp_seq_v_index(s: Seq<Rc<Lisp>>, i: int)
    requires
        0 <= i < s.len(),
    ensures
        lisp_seq_v(s).len() == s.len(),
        lisp_seq_v(s)[i] == lisp_v(*s[i]),
    decreases s,
{
    lemma_lisp_seq_v_len(s);
    if s.len() > 0 {
        let pre = s.subrange(0, s.len() - 1);
        lemma_lisp_seq_v_len(pre);
        if i < s.len() - 1 {
            lemma_lisp_seq_v_index(pre, i);
        }
    }
}

/// Pushing a value corresponds to pushing its view.
pub proof fn lemma_lisp_seq_v_push(s: Seq<Rc<Lisp>>, x: Rc<Lisp>)
    ensures
        lisp_seq_v(s.push(x)) == lisp_seq_v(s).push(lisp_v(*x)),
{
    assert(s.push(x).subrange(0, s.push(x).len() - 1) =~= s);
}

/// Pushing an instruction corresponds to pushing its view.
pub proof fn lemma_code_v_push(s: Seq<CodeOPInfo>, x: CodeOPInfo)
    ensures
        code_v(s.push(x)) == code_v(s).push(instr_v(x)),
{
    assert(s.push(x).subrange(0, s.push(x).len() - 1) =~= s);
}

/// The view of an instruction sequence has the same length.
pub proof fn lemma_code_v_len(s: Seq<CodeOPInfo>)
    ensures
        code_v(s).len() == s.len(),
    decreases s,
{
    if s.len() > 0 {
        lemma_code_v_len(s.subrange(0, s.len() - 1));
    }
}

/// The view of a concatenation is the concatenation of the views.
pub proof fn lemma_code_v_concat(a: Seq<CodeOPInfo>, b: Seq<CodeOPInfo>)
    ensures
        code_v(a + b) == code_v(a) + code_v(b),
    decreases b.len(),
{
    if b.len() == 0 {
        assert(a + b =~= a);
        assert(code_v(a) + code_v(b) =~= code_v(a));
    } else {
        let bp = b.subrange(0, b.len() - 1);
        lemma_code_v_concat(a, bp);
        let ab = a + b;
        assert(ab.subrange(0, ab.len() - 1) =~= a + bp);
        assert(ab[ab.len() - 1] == b[b.len() - 1]);
        lemma_code_v_len(a);
        lemma_code_v_len(bp);
        assert(code_v(a + b) =~= code_v(a) + code_v(b));
    }
}

/// The view of a code suffix, one instruction shorter.
pub proof fn lemma_code_v_skip_one(s: Seq<CodeOPInfo>, i: int)
    requires
        0 <= i < s.len(),
    ensures
        code_v(s.skip(i)) == seq![instr_v(s[i])] + code_v(s.skip(i + 1)),
{
    let tail = s.skip(i + 1);
    let head = seq![s[i]];
    assert(s.skip(i) =~= head + tail);
    lemma_code_v_concat(head, tail);
    assert(head[0] == s[i]);
    assert(head.subrange(0, 0) =~= Seq::<CodeOPInfo>::empty());
    assert(code_v(Seq::<CodeOPInfo>::empty()) =~= Seq::<CodeOPInfoV>::empty());
    assert(code_v(head) =~= Seq::<CodeOPInfoV>::empty().push(instr_v(s[i])));
    assert(code_v(head) =~= seq![instr_v(s[i])]);
}

/// Binding a pair corresponds to inserting into the environment map.
pub proof fn lemma_env_v_push(s: Seq<(String, Rc<Lisp>)>, p: (String, Rc<Lisp>))
    ensures
        env_v(s.push(p)) == env_v(s).insert(p.0@, lisp_v(*p.1)),
{
    assert(s.push(p).subrange(0, s.push(p).len() - 1) =~= s);
}

/// The environment denoted by a concatenation of binding runs.
pub proof fn lemma_env_v_concat(a: Seq<(String, Rc<Lisp>)>, b: Seq<(String, Rc<Lisp>)>)
    ensures
        env_v(a + b) == env_v(a).union_prefer_right(env_v(b)),
    decreases b.len(),
{
    if b.len() == 0 {
        assert(a + b =~= a);
        assert(env_v(a).union_prefer_right(env_v(b)) =~= env_v(a));
    } else {
        let bp = b.subrange(0, b.len() - 1);
        lemma_env_v_concat(a, bp);
        let ab = a + b;
        assert(ab.subrange(0, ab.len() - 1) =~= a + bp);
        let p = b[b.len() - 1];
        assert(ab[ab.len() - 1] == p);
        assert(env_v(a).union_prefer_right(env_v(bp)).insert(p.0@, lisp_v(*p.1)) =~= env_v(
            a,
        ).union_prefer_right(env_v(bp).insert(p.0@, lisp_v(*p.1))));
    }
}

// ---------------------------------------------------------------------
// Duplication
// ---------------------------------------------------------------------

impl Clone for CodeOP {
    /// Duplicating an instruction payload duplicates shared code blocks
    /// by reference and yields the same value.
    fn clone(&self) -> (r: CodeOP)
        ensures
            r == *self,
    {
        match self {
            CodeOP::LET(id) => CodeOP::LET(id.clone()),
            CodeOP::LD(id) => CodeOP::LD(id.clone()),
            CodeOP::LDC(l) => CodeOP::LDC(l.clone()),
            CodeOP::LDF(ps, body) => CodeOP::LDF(ps.clone(), body.clone()),
            CodeOP::RET => CodeOP::RET,
            CodeOP::AP => CodeOP::AP,
            CodeOP::RAP => CodeOP::RAP,
            CodeOP::ARGS(n) => CodeOP::ARGS(*n),
            CodeOP::PUTS => CodeOP::PUTS,
            CodeOP::SEL(t, f) => CodeOP::SEL(t.clone(), f.clone()),
            CodeOP::JOIN => CodeOP::JOIN,
            CodeOP::EQ => CodeOP::EQ,
            CodeOP::ADD => CodeOP::ADD,
            CodeOP::SUB => CodeOP::SUB,
            CodeOP::CONS => CodeOP::CONS,
            CodeOP::CAR => CodeOP::CAR,
            CodeOP::CDR => CodeOP::CDR,
        }
    }
}

impl Clone for CodeOPInfo {
    /// Duplicating a positioned instruction yields the same value.
    fn clone(&self) -> (r: CodeOPInfo)
        ensures
            r == *self,
    {
        CodeOPInfo { info: self.info, op: self.op.clone() }
    }
}

/// Duplicate an instruction sequence, value for value.
pub fn clone_code(c: &Code) -> (r: Code)
    ensures
        r@ == c@,
{
    let mut r: Code = Vec::new();
    let mut i: usize = 0;
    while i < c.len()
        invariant
            0 <= i <= c.len(),
            r@ =~= c@.take(i as int),
        decreases c.len() - i,
    {
        r.push(c[i].clone());
        proof {
            assert(c@.take((i + 1) as int) =~= c@.take(i as int).push(c@[i as int]));
        }
        i = i + 1;
    }
    proof {
        assert(c@.take(c.len() as int) =~= c@);
    }
    r
}

// ---------------------------------------------------------------------
// Errors
// ---------------------------------------------------------------------

/// A compile-time error, carrying the source position of the
/// triggering node. Rendering a message is left to the caller.
#[derive(Clone, Copy, PartialEq, Eq, Structural, Debug)]
pub enum CompileErr {
    /// An integer literal stands in application-head position.
    ApplyInt(Info),
    /// `lambda` without exactly a binder and a body.
    LambdaSyntax(Info),
    /// A `lambda` binder that is not a symbol or a list of symbols.
    LambdaArgs(Info),
    /// `let`/`letrec` without exactly a binder, an expression and a body.
    LetSyntax(Info),
    /// A `let`/`letrec` binder that is not a symbol.
    LetBindId(Info),
    /// `if` without exactly a condition and two branches.
    IfSyntax(Info),
    /// `puts` without exactly one argument.
    PutsSyntax(Info),
    /// `eq` without exactly two arguments.
    EqSyntax(Info),
    /// `+` without exactly two arguments.
    AddSyntax(Info),
    /// `-` without exactly two arguments.
    SubSyntax(Info),
    /// `cons` without exactly two arguments.
    ConsSyntax(Info),
    /// `car` without exactly one argument.
    CarSyntax(Info),
    /// `cdr` without exactly one argument.
    CdrSyntax(Info),
}

/// A runtime error, carrying the position of the instruction whose
/// precondition was violated.
#[derive(Clone, Copy, PartialEq, Eq, Structural, Debug)]
pub enum RuntimeErr {
    /// An opcode found fewer operands on the stack than it requires.
    StackUnderflow(Info),
    /// `RET` or `JOIN` found the dump empty.
    DumpUnderflow(Info),
    /// `LD` of an identifier that is not bound.
    UnboundId(Info),
    /// `AP` applied to a value that is not a closure.
    ApExpectedClosure(Info),
    /// `AP` found no argument list under the closure.
    ApExpectedList(Info),
    /// `AP` with an argument list whose length differs from the
    /// parameter count.
    ApWrongArgCount(Info),
    /// `RAP` applied to a value that is not a closure.
    RapExpectedClosure(Info),
    /// `RAP` found no argument list under the closure.
    RapExpectedList(Info),
    /// `RAP` with an argument list whose length differs from the
    /// parameter count.
    RapWrongArgCount(Info),
    /// `RET` found a conditional frame on top of the dump.
    RetExpectedDumpAP(Info),
    /// `SEL` on a value that is neither `True` nor `False`.
    SelExpectedBool(Info),
    /// `JOIN` found an application frame on top of the dump.
    JoinExpectedDumpSEL(Info),
    /// `ADD` on an operand that is not an integer.
    AddExpectedInt(Info),
    /// `SUB` on an operand that is not an integer.
    SubExpectedInt(Info),
    /// `CAR` on a value that is not a pair.
    CarExpectedCons(Info),
    /// `CDR` on a value that is not a pair.
    CdrExpectedCons(Info),
    /// The program ran to completion with an empty stack.
    EmptyStack,
    /// The step budget handed to `run` was exhausted first.
    StepLimit,
}

} // verus!
