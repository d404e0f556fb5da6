//! The syntax-directed compiler: translates an AST into a flat, ordered
//! instruction sequence, tracking which identifiers are currently
//! recursively bound so that call sites can choose `RAP` over `AP`.

use std::rc::Rc;
use vstd::prelude::*;

use crate::data::AST;
use crate::data::Code;
use crate::data::CodeOP;
use crate::data::CodeOPInfo;
use crate::data::CodeOPInfoV;
use crate::data::CodeOPV;
use crate::data::CompileErr;
use crate::data::Info;
use crate::data::Lisp;
use crate::data::LispV;
use crate::data::SExpr;
use crate::data::code_v;
use crate::data::ids_v;
use crate::data::instr_v;
use crate::data::lemma_code_v_push;
use crate::data::op_v;

verus! {

/// What one compilation step returns: the instructions it emits and the
/// letrec-tracking set it leaves behind, or the first error.
pub type CompRes = Result<(Seq<CodeOPInfoV>, Seq<Seq<char>>), CompileErr>;

/// Membership in the letrec-tracking set.
pub open spec fn in_rec(rec: Seq<Seq<char>>, id: Seq<char>) -> bool {
    exists|i: int| 0 <= i < rec.len() && rec[i] == id
}

/// The letrec-tracking set with every occurrence of `id` removed.
pub open spec fn remove_id(rec: Seq<Seq<char>>, id: Seq<char>) -> Seq<Seq<char>>
    decreases rec.len(),
{
    if rec.len() == 0 {
        Seq::empty()
    } else if rec[0] == id {
        remove_id(rec.skip(1), id)
    } else {
        seq![rec[0]] + remove_id(rec.skip(1), id)
    }
}

/// The instruction a bare symbol compiles to: the three reserved
/// literal names load constants, any other name is a variable load.
pub open spec fn atom_op_v(id: Seq<char>) -> CodeOPV {
    if id == "nil"@ {
        CodeOPV::LDC(LispV::Nil)
    } else if id == "true"@ {
        CodeOPV::LDC(LispV::True)
    } else if id == "false"@ {
        CodeOPV::LDC(LispV::False)
    } else {
        CodeOPV::LD(id)
    }
}

/// Parameter names of a `lambda` binder list: every element must be a
/// bare symbol.
pub open spec fn params_of(aa: Seq<AST>) -> Option<Seq<Seq<char>>>
    decreases aa.len(),
{
    if aa.len() == 0 {
        Some(Seq::empty())
    } else {
        match aa[0].sexpr {
            SExpr::Atom(a) => match params_of(aa.skip(1)) {
                Some(t) => Some(seq![a@] + t),
                None => None,
            },
            _ => None,
        }
    }
}

/// What compiling one AST node emits, and how it changes the
/// letrec-tracking set. This is the reference meaning of the compiler.
pub open spec fn compile_sp(rec: Seq<Seq<char>>, ast: AST) -> CompRes
    decreases ast, 0nat,
    via compile_sp_dec
{
    match ast.sexpr {
        SExpr::Int(n) => Ok(
            (
                seq![CodeOPInfoV { info: ast.info, op: CodeOPV::LDC(LispV::Int(n as int)) }],
                rec,
            ),
        ),
        SExpr::Atom(id) => Ok(
            (seq![CodeOPInfoV { info: ast.info, op: atom_op_v(id@) }], rec),
        ),
        SExpr::List(ls) => {
            if ls@.len() == 0 {
                Ok((seq![CodeOPInfoV { info: ast.info, op: CodeOPV::LDC(LispV::Nil) }], rec))
            } else {
                let head = ls@[0];
                let args = ls@.skip(1);
                let info = head.info;
                match head.sexpr {
                    SExpr::Int(_) => Err(CompileErr::ApplyInt(info)),
                    SExpr::Atom(id) => {
                        if id@ == "lambda"@ {
                            lambda_sp(rec, info, args)
                        } else if id@ == "let"@ {
                            let_sp(rec, info, args, false)
                        } else if id@ == "letrec"@ {
                            let_sp(rec, info, args, true)
                        } else if id@ == "puts"@ {
                            unary_sp(rec, info, args, CodeOPV::PUTS, CompileErr::PutsSyntax(info))
                        } else if id@ == "if"@ {
                            if_sp(rec, info, args)
                        } else if id@ == "eq"@ {
                            binary_sp(rec, info, args, CodeOPV::EQ, CompileErr::EqSyntax(info))
                        } else if id@ == "+"@ {
                            binary_sp(rec, info, args, CodeOPV::ADD, CompileErr::AddSyntax(info))
                        } else if id@ == "-"@ {
                            binary_sp(rec, info, args, CodeOPV::SUB, CompileErr::SubSyntax(info))
                        } else if id@ == "cons"@ {
                            binary_sp(rec, info, args, CodeOPV::CONS, CompileErr::ConsSyntax(info))
                        } else if id@ == "car"@ {
                            unary_sp(rec, info, args, CodeOPV::CAR, CompileErr::CarSyntax(info))
                        } else if id@ == "cdr"@ {
                            unary_sp(rec, info, args, CodeOPV::CDR, CompileErr::CdrSyntax(info))
                        } else {
                            apply_sp(rec, info, head, args)
                        }
                    },
                    SExpr::List(_) => apply_sp(rec, info, head, args),
                }
            }
        },
    }
}

#[via_fn]
proof fn compile_sp_dec(rec: Seq<Seq<char>>, ast: AST) {
    match ast.sexpr {
        SExpr::List(ls) => {
            if ls@.len() > 0 {
                let head = ls@[0];
                let args = ls@.skip(1);
                assert(decreases_to!(ast => ast.sexpr));
                assert(decreases_to!(ast.sexpr => ast.sexpr->List_0));
                assert(decreases_to!(ast.sexpr->List_0 => ast.sexpr->List_0@));
                assert(seq![head] + args =~= ls@);
                assert(decreases_to!(ast => seq![head] + args));
            }
        },
        _ => {},
    }
}

/// `lambda` binder-and-body: emits one `LDF` whose body is the compiled
/// body followed by `RET`. The body's letrec-tracking set is discarded.
pub open spec fn lambda_sp(rec: Seq<Seq<char>>, info: Info, args: Seq<AST>) -> CompRes
    decreases args, 1nat,
{
    if args.len() != 2 {
        Err(CompileErr::LambdaSyntax(info))
    } else {
        let binder = args[0];
        let params = match binder.sexpr {
            SExpr::Atom(a) => Some(seq![a@]),
            SExpr::List(aa) => params_of(aa@),
            SExpr::Int(_) => None,
        };
        match params {
            None => {
                match binder.sexpr {
                    SExpr::Int(_) => Err(CompileErr::LambdaArgs(binder.info)),
                    _ => Err(CompileErr::LambdaArgs(info)),
                }
            },
            Some(ps) => match compile_sp(rec, args[1]) {
                Ok(pr) => Ok(
                    (
                        seq![
                            CodeOPInfoV {
                                info,
                                op: CodeOPV::LDF(
                                    ps,
                                    pr.0 + seq![CodeOPInfoV { info, op: CodeOPV::RET }],
                                ),
                            },
                        ],
                        rec,
                    ),
                ),
                Err(e) => Err(e),
            },
        }
    }
}

/// `let` and `letrec`: bind an identifier to a compiled expression and
/// continue compiling the body into the same instruction stream. For
/// `letrec` the identifier is added to the letrec-tracking set before
/// the bound expression is compiled; for `let` it is removed.
pub open spec fn let_sp(rec: Seq<Seq<char>>, info: Info, args: Seq<AST>, is_rec: bool) -> CompRes
    decreases args, 1nat,
{
    if args.len() != 3 {
        Err(CompileErr::LetSyntax(info))
    } else {
        match args[0].sexpr {
            SExpr::Atom(id) => {
                let rec1 = if is_rec {
                    rec.push(id@)
                } else {
                    remove_id(rec, id@)
                };
                match compile_sp(rec1, args[1]) {
                    Ok(pr1) => match compile_sp(pr1.1, args[2]) {
                        Ok(pr2) => Ok(
                            (
                                pr1.0 + seq![CodeOPInfoV { info, op: CodeOPV::LET(id@) }] + pr2.0,
                                pr2.1,
                            ),
                        ),
                        Err(e) => Err(e),
                    },
                    Err(e) => Err(e),
                }
            },
            _ => Err(CompileErr::LetBindId(info)),
        }
    }
}

/// `if`: compile the condition, then each branch in a fresh sub-compiler
/// that inherits the letrec-tracking set, each followed by `JOIN`, and
/// emit one `SEL`.
pub open spec fn if_sp(rec: Seq<Seq<char>>, info: Info, args: Seq<AST>) -> CompRes
    decreases args, 1nat,
{
    if args.len() != 3 {
        Err(CompileErr::IfSyntax(info))
    } else {
        match compile_sp(rec, args[0]) {
            Ok(prc) => match compile_sp(prc.1, args[1]) {
                Ok(prt) => match compile_sp(prc.1, args[2]) {
                    Ok(prf) => {
                        let tcode = prt.0 + seq![
                            CodeOPInfoV { info: args[1].info, op: CodeOPV::JOIN },
                        ];
                        let fcode = prf.0 + seq![
                            CodeOPInfoV { info: args[2].info, op: CodeOPV::JOIN },
                        ];
                        Ok(
                            (
                                prc.0 + seq![
                                    CodeOPInfoV { info, op: CodeOPV::SEL(tcode, fcode) },
                                ],
                                prc.1,
                            ),
                        )
                    },
                    Err(e) => Err(e),
                },
                Err(e) => Err(e),
            },
            Err(e) => Err(e),
        }
    }
}

/// The one-argument forms `puts`, `car` and `cdr`.
pub open spec fn unary_sp(
    rec: Seq<Seq<char>>,
    info: Info,
    args: Seq<AST>,
    op: CodeOPV,
    err: CompileErr,
) -> CompRes
    decreases args, 1nat,
{
    if args.len() != 1 {
        Err(err)
    } else {
        match compile_sp(rec, args[0]) {
            Ok(pr) => Ok((pr.0 + seq![CodeOPInfoV { info, op }], pr.1)),
            Err(e) => Err(e),
        }
    }
}

/// The two-argument forms `eq`, `+`, `-` and `cons`: left operand, then
/// right operand, then the single opcode.
pub open spec fn binary_sp(
    rec: Seq<Seq<char>>,
    info: Info,
    args: Seq<AST>,
    op: CodeOPV,
    err: CompileErr,
) -> CompRes
    decreases args, 1nat,
{
    if args.len() != 2 {
        Err(err)
    } else {
        match compile_sp(rec, args[0]) {
            Ok(pr1) => match compile_sp(pr1.1, args[1]) {
                Ok(pr2) => Ok((pr1.0 + pr2.0 + seq![CodeOPInfoV { info, op }], pr2.1)),
                Err(e) => Err(e),
            },
            Err(e) => Err(e),
        }
    }
}

/// Arguments of an application, compiled left to right, each pushing
/// its result in source order.
pub open spec fn compile_seq_sp(rec: Seq<Seq<char>>, asts: Seq<AST>) -> CompRes
    decreases asts, 1nat,
{
    if asts.len() == 0 {
        Ok((Seq::empty(), rec))
    } else {
        match compile_sp(rec, asts[0]) {
            Ok(pr1) => match compile_seq_sp(pr1.1, asts.skip(1)) {
                Ok(pr2) => Ok((pr1.0 + pr2.0, pr2.1)),
                Err(e) => Err(e),
            },
            Err(e) => Err(e),
        }
    }
}

#[via_fn]
proof fn apply_sp_dec(rec: Seq<Seq<char>>, info: Info, head: AST, args: Seq<AST>) {
    let combined = seq![head] + args;
    assert(combined[0] == head);
    assert(args =~= combined.subrange(1, combined.len() as int));
    assert(decreases_to!(combined => combined[0]));
    assert(decreases_to!(combined => combined.subrange(1, combined.len() as int)));
}

/// A function application: arguments left to right, `ARGS(n)`, then the
/// head expression, then `RAP` if the head is a bare symbol currently
/// in the letrec-tracking set, otherwise `AP`.
pub open spec fn apply_sp(rec: Seq<Seq<char>>, info: Info, head: AST, args: Seq<AST>) -> CompRes
    decreases seq![head] + args, 1nat,
    via apply_sp_dec
{
    match compile_seq_sp(rec, args) {
        Ok(pra) => match compile_sp(pra.1, head) {
            Ok(prh) => {
                let recursive = match head.sexpr {
                    SExpr::Atom(id) => in_rec(prh.1, id@),
                    _ => false,
                };
                let call = if recursive {
                    CodeOPV::RAP
                } else {
                    CodeOPV::AP
                };
                Ok(
                    (
                        pra.0 + seq![CodeOPInfoV { info, op: CodeOPV::ARGS(args.len() as int) }]
                            + prh.0 + seq![CodeOPInfoV { info, op: call }],
                        prh.1,
                    ),
                )
            },
            Err(e) => Err(e),
        },
        Err(e) => Err(e),
    }
}

/// View of a sequence of identifiers, push form.
proof fn lemma_ids_v_push(s: Seq<String>, x: String)
    ensures
        ids_v(s.push(x)) == ids_v(s).push(x@),
{
    assert(ids_v(s.push(x)) =~= ids_v(s).push(x@));
}

/// Compare an identifier with a keyword.
fn string_eq_lit(a: &String, b: &str) -> (r: bool)
    ensures
        r == (a@ == b@),
{
    let bs: String = b.to_owned();
    *a == bs
}

/// Duplicate a list of identifiers, value for value.
fn clone_ids(v: &Vec<String>) -> (r: Vec<String>)
    ensures
        r@ == v@,
{
    let mut r: Vec<String> = Vec::new();
    let mut i: usize = 0;
    while i < v.len()
        invariant
            0 <= i <= v.len(),
            r@ =~= v@.take(i as int),
        decreases v.len() - i,
    {
        r.push(v[i].clone());
        proof {
            assert(v@.take((i + 1) as int) =~= v@.take(i as int).push(v@[i as int]));
        }
        i = i + 1;
    }
    proof {
        assert(v@.take(v.len() as int) =~= v@);
    }
    r
}

/// The compiler: accumulates instructions into `code` while tracking
/// which identifiers are currently bound by an enclosing `letrec`.
pub struct Compiler {
    pub code: Code,
    pub letrec_id_list: Vec<String>,
}

impl Compiler {
    /// A fresh compiler with no emitted code and an empty
    /// letrec-tracking set.
    pub fn new() -> (c: Compiler)
        ensures
            c.code@ == Seq::<CodeOPInfo>::empty(),
            c.letrec_id_list@ == Seq::<String>::empty(),
    {
        Compiler { code: Vec::new(), letrec_id_list: Vec::new() }
    }

    /// The letrec-tracking set, as the contracts see it.
    pub closed spec fn rec_v(self) -> Seq<Seq<char>> {
        ids_v(self.letrec_id_list@)
    }

    /// Is `id` currently letrec-bound?
    fn contains_rec_id(&self, id: &String) -> (r: bool)
        ensures
            r == in_rec(self.rec_v(), id@),
    {
        let mut i: usize = 0;
        while i < self.letrec_id_list.len()
            invariant
                0 <= i <= self.letrec_id_list.len(),
                forall|j: int| 0 <= j < i ==> ids_v(self.letrec_id_list@)[j] != id@,
            decreases self.letrec_id_list.len() - i,
        {
            if self.letrec_id_list[i] == *id {
                proof {
                    assert(ids_v(self.letrec_id_list@)[i as int] == id@);
                }
                return true;
            }
            i = i + 1;
        }
        proof {
            assert(forall|j: int|
                0 <= j < ids_v(self.letrec_id_list@).len() ==> ids_v(self.letrec_id_list@)[j]
                    != id@);
        }
        false
    }

    /// Drop every occurrence of `id` from the letrec-tracking set.
    fn remove_rec_id(&mut self, id: &String)
        ensures
            final(self).code == old(self).code,
            final(self).rec_v() == remove_id(old(self).rec_v(), id@),
    {
        let ghost t = ids_v(self.letrec_id_list@);
        let mut kept: Vec<String> = Vec::new();
        let mut i: usize = 0;
        proof {
            assert(ids_v(kept@) =~= Seq::<Seq<char>>::empty());
            assert(t.skip(0) =~= t);
            assert(ids_v(kept@) + remove_id(t, id@) =~= remove_id(t, id@));
        }
        while i < self.letrec_id_list.len()
            invariant
                0 <= i <= self.letrec_id_list.len(),
                t == ids_v(self.letrec_id_list@),
                self.letrec_id_list == old(self).letrec_id_list,
                self.code == old(self).code,
                remove_id(t, id@) == ids_v(kept@) + remove_id(t.skip(i as int), id@),
            decreases self.letrec_id_list.len() - i,
        {
            let ghost ki = ids_v(kept@);
            let ghost ti = t.skip(i as int);
            proof {
                assert(ti[0] == t[i as int]);
                assert(t[i as int] == self.letrec_id_list@[i as int]@);
                assert(ti.skip(1) =~= t.skip(i + 1));
            }
            if !(self.letrec_id_list[i] == *id) {
                let s = self.letrec_id_list[i].clone();
                let ghost gk = kept@;
                let ghost gs = s;
                kept.push(s);
                proof {
                    lemma_ids_v_push(gk, gs);
                }
            }
            proof {
                if ti[0] == id@ {
                    assert(remove_id(ti, id@) == remove_id(t.skip(i + 1), id@));
                } else {
                    assert(remove_id(ti, id@) == seq![ti[0]] + remove_id(t.skip(i + 1), id@));
                    assert(ids_v(kept@) =~= ki.push(ti[0]));
                    assert(ids_v(kept@) + remove_id(t.skip(i + 1), id@) =~= ki + (seq![ti[0]]
                        + remove_id(t.skip(i + 1), id@)));
                }
            }
            i = i + 1;
        }
        proof {
            assert(t.skip(self.letrec_id_list@.len() as int) =~= Seq::<Seq<char>>::empty());
            assert(remove_id(t, id@) =~= ids_v(kept@));
        }
        self.letrec_id_list = kept;
    }

    /// Compile one AST into a fresh instruction sequence.
    pub fn compile(&mut self, ast: AST) -> (r: Result<Code, CompileErr>)
        ensures
            (match compile_sp(old(self).rec_v(), ast) {
                Ok(pr) => r matches Ok(code) && code_v(code@) == code_v(old(self).code@) + pr.0
                    && code_v(final(self).code@) == code_v(old(self).code@) + pr.0
                    && final(self).rec_v() == pr.1,
                Err(e) => r == Err::<Code, CompileErr>(e),
            }),
    {
        match self.compile_(ast) {
            Ok(()) => Ok(crate::data::clone_code(&self.code)),
            Err(e) => Err(e),
        }
    }

    /// Compile one AST node, appending its instructions to `code`.
    pub fn compile_(&mut self, ast: AST) -> (r: Result<(), CompileErr>)
        ensures
            (match compile_sp(old(self).rec_v(), ast) {
                Ok(pr) => r is Ok && code_v(final(self).code@) == code_v(old(self).code@) + pr.0
                    && final(self).rec_v() == pr.1,
                Err(e) => r == Err::<(), CompileErr>(e),
            }),
        decreases ast, 0nat,
    {
        let ghost gast = ast;
        let ghost rec0 = self.rec_v();
        let info = ast.info;
        match ast.sexpr {
            SExpr::Int(n) => self.compile_int(info, n),
            SExpr::Atom(id) => self.compile_atom(info, id),
            SExpr::List(ls) => {
                if ls.len() == 0 {
                    self.compile_nil(info)
                } else {
                    let ghost gls = ls@;
                    proof {
                        assert(decreases_to!(gast => gast.sexpr));
                        assert(decreases_to!(gast.sexpr => gast.sexpr->List_0));
                        assert(decreases_to!(gast.sexpr->List_0 => gast.sexpr->List_0@));
                        assert(gast.sexpr->List_0@ == gls);
                    }
                    let mut rest = ls;
                    let fun = rest.remove(0);
                    let args = rest;
                    let finfo = fun.info;
                    let ghost gfun = fun;
                    let ghost gargs = args@;
                    proof {
                        assert(gfun == gls[0]);
                        assert(gargs =~= gls.skip(1));
                        assert(decreases_to!(gls => gls[0]));
                        assert(seq![gfun] + gargs =~= gls);
                    }
                    match fun.sexpr {
                        SExpr::Int(_) => Err(CompileErr::ApplyInt(finfo)),
                        SExpr::Atom(id) => {
                            if string_eq_lit(&id, "lambda") {
                                self.compile_lambda(finfo, args)
                            } else if string_eq_lit(&id, "let") {
                                self.compile_let(finfo, args)
                            } else if string_eq_lit(&id, "letrec") {
                                self.compile_letrec(finfo, args)
                            } else if string_eq_lit(&id, "puts") {
                                self.compile_puts(finfo, args)
                            } else if string_eq_lit(&id, "if") {
                                self.compile_if(finfo, args)
                            } else if string_eq_lit(&id, "eq") {
                                self.compile_eq(finfo, args)
                            } else if string_eq_lit(&id, "+") {
                                self.compile_add(finfo, args)
                            } else if string_eq_lit(&id, "-") {
                                self.compile_sub(finfo, args)
                            } else if string_eq_lit(&id, "cons") {
                                self.compile_cons(finfo, args)
                            } else if string_eq_lit(&id, "car") {
                                self.compile_car(finfo, args)
                            } else if string_eq_lit(&id, "cdr") {
                                self.compile_cdr(finfo, args)
                            } else {
                                self.compile_apply(
                                    finfo,
                                    AST { sexpr: SExpr::Atom(id), info: finfo },
                                    args,
                                )
                            }
                        },
                        SExpr::List(l2) => {
                            self.compile_apply(
                                finfo,
                                AST { sexpr: SExpr::List(l2), info: finfo },
                                args,
                            )
                        },
                    }
                }
            },
        }
    }

    /// `lambda`: compile the body in a fresh sub-compiler inheriting the
    /// letrec-tracking set, append `RET`, and emit one `LDF`.
    #[verifier::loop_isolation(false)]
    fn compile_lambda(&mut self, info: Info, ls: Vec<AST>) -> (r: Result<(), CompileErr>)
        ensures
            (match lambda_sp(old(self).rec_v(), info, ls@) {
                Ok(pr) => r is Ok && code_v(final(self).code@) == code_v(old(self).code@) + pr.0
                    && final(self).rec_v() == pr.1,
                Err(e) => r == Err::<(), CompileErr>(e),
            }),
        decreases ls@, 1nat,
    {
        let ghost gls = ls@;
        let ghost rec0 = self.rec_v();
        let ghost code0 = code_v(self.code@);
        if ls.len() != 2 {
            return Err(CompileErr::LambdaSyntax(info));
        }
        let mut rest = ls;
        let body = rest.pop().unwrap();
        let arg = rest.pop().unwrap();
        proof {
            assert(body == gls[1]);
            assert(arg == gls[0]);
            assert(decreases_to!(gls => gls[1]));
        }
        let mut names: Vec<String> = Vec::new();
        match arg.sexpr {
            SExpr::Atom(a) => {
                let ghost ga = a;
                names.push(a);
                proof {
                    lemma_ids_v_push(Seq::<String>::empty(), ga);
                    assert(ids_v(names@) =~= seq![ga@]);
                }
            },
            SExpr::List(aa) => {
                let ghost gaa = aa@;
                let mut i: usize = 0;
                proof {
                    assert(gaa.skip(0) =~= gaa);
                    assert(ids_v(names@) =~= Seq::<Seq<char>>::empty());
                    assert(params_of(gaa) == (match params_of(gaa.skip(0)) {
                        Some(t) => Some(ids_v(names@) + t),
                        None => None::<Seq<Seq<char>>>,
                    })) by {
                        if params_of(gaa) is Some {
                            assert(Seq::<Seq<char>>::empty() + params_of(gaa)->Some_0
                                =~= params_of(gaa)->Some_0);
                        }
                    }
                }
                while i < aa.len()
                    invariant
                        0 <= i <= aa.len(),
                        gaa == aa@,
                        params_of(gaa) == (match params_of(gaa.skip(i as int)) {
                            Some(t) => Some(ids_v(names@) + t),
                            None => None::<Seq<Seq<char>>>,
                        }),
                    decreases aa.len() - i,
                {
                    let ghost ti = gaa.skip(i as int);
                    proof {
                        assert(ti[0] == gaa[i as int]);
                        assert(ti.skip(1) =~= gaa.skip(i + 1));
                    }
                    match &aa[i].sexpr {
                        SExpr::Atom(a) => {
                            let ghost gk = names@;
                            let a2 = a.clone();
                            let ghost ga2 = a2;
                            names.push(a2);
                            proof {
                                lemma_ids_v_push(gk, ga2);
                                assert(ga2@ == ti[0].sexpr->Atom_0@);
                                if params_of(gaa.skip(i + 1)) is Some {
                                    let t2 = params_of(gaa.skip(i + 1))->Some_0;
                                    assert(params_of(ti) == Some(seq![ga2@] + t2));
                                    assert(ids_v(gk) + (seq![ga2@] + t2) =~= ids_v(names@) + t2);
                                } else {
                                    assert(params_of(ti) is None);
                                }
                            }
                        },
                        _ => {
                            proof {
                                assert(params_of(ti) is None);
                            }
                            return Err(CompileErr::LambdaArgs(info));
                        },
                    }
                    i = i + 1;
                }
                proof {
                    assert(gaa.skip(gaa.len() as int) =~= Seq::<AST>::empty());
                    assert(params_of(Seq::<AST>::empty()) == Some(Seq::<Seq<char>>::empty()));
                    assert(ids_v(names@) + Seq::<Seq<char>>::empty() =~= ids_v(names@));
                }
            },
            SExpr::Int(_) => {
                return Err(CompileErr::LambdaArgs(arg.info));
            },
        }
        let ghost gparams = ids_v(names@);
        let mut body_compiler = Compiler::new();
        body_compiler.letrec_id_list = clone_ids(&self.letrec_id_list);
        match body_compiler.compile_(body) {
            Err(e) => Err(e),
            Ok(()) => {
                let ghost pr = compile_sp(rec0, gls[1])->Ok_0;
                let jinstr = CodeOPInfo { info, op: CodeOP::RET };
                let ghost gj = jinstr;
                let ghost bpre = body_compiler.code@;
                body_compiler.code.push(jinstr);
                proof {
                    lemma_code_v_push(bpre, gj);
                    assert(code_v(body_compiler.code@) =~= pr.0 + seq![
                        CodeOPInfoV { info, op: CodeOPV::RET },
                    ]);
                }
                let ghost gbody = body_compiler.code@;
                let instr = CodeOPInfo {
                    info,
                    op: CodeOP::LDF(Rc::new(names), Rc::new(body_compiler.code)),
                };
                let ghost gi = instr;
                let ghost pre = self.code@;
                self.code.push(instr);
                proof {
                    lemma_code_v_push(pre, gi);
                    assert(instr_v(gi) == CodeOPInfoV {
                        info,
                        op: CodeOPV::LDF(gparams, code_v(gbody)),
                    });
                    assert(code_v(self.code@) =~= code0 + seq![instr_v(gi)]);
                }
                Ok(())
            },
        }
    }

    /// `let`: remove the identifier from the letrec-tracking set, bind
    /// the compiled expression, and continue with the body.
    fn compile_let(&mut self, info: Info, ls: Vec<AST>) -> (r: Result<(), CompileErr>)
        ensures
            (match let_sp(old(self).rec_v(), info, ls@, false) {
                Ok(pr) => r is Ok && code_v(final(self).code@) == code_v(old(self).code@) + pr.0
                    && final(self).rec_v() == pr.1,
                Err(e) => r == Err::<(), CompileErr>(e),
            }),
        decreases ls@, 1nat,
    {
        let ghost gls = ls@;
        let ghost rec0 = self.rec_v();
        let ghost code0 = code_v(self.code@);
        if ls.len() != 3 {
            return Err(CompileErr::LetSyntax(info));
        }
        let mut rest = ls;
        let body = rest.pop().unwrap();
        let expr = rest.pop().unwrap();
        let var = rest.pop().unwrap();
        proof {
            assert(var == gls[0]);
            assert(expr == gls[1]);
            assert(body == gls[2]);
            assert(decreases_to!(gls => gls[1]));
            assert(decreases_to!(gls => gls[2]));
        }
        let id = match var.sexpr {
            SExpr::Atom(id) => id,
            _ => {
                return Err(CompileErr::LetBindId(info));
            },
        };
        self.remove_rec_id(&id);
        let ghost rec1 = self.rec_v();
        match self.compile_(expr) {
            Err(e) => {
                return Err(e);
            },
            Ok(()) => {},
        }
        let ghost pr1 = compile_sp(rec1, gls[1])->Ok_0;
        let instr = CodeOPInfo { info, op: CodeOP::LET(id) };
        let ghost gi = instr;
        let ghost pre = self.code@;
        self.code.push(instr);
        proof {
            lemma_code_v_push(pre, gi);
        }
        let ghost mid = code_v(self.code@);
        let r = self.compile_(body);
        proof {
            match compile_sp(pr1.1, gls[2]) {
                Ok(pr2) => {
                    assert(code_v(self.code@) =~= code0 + (pr1.0 + seq![instr_v(gi)] + pr2.0));
                },
                Err(_) => {},
            }
        }
        r
    }

    /// `letrec`: add the identifier to the letrec-tracking set, bind
    /// the compiled expression, and continue with the body.
    fn compile_letrec(&mut self, info: Info, ls: Vec<AST>) -> (r: Result<(), CompileErr>)
        ensures
            (match let_sp(old(self).rec_v(), info, ls@, true) {
                Ok(pr) => r is Ok && code_v(final(self).code@) == code_v(old(self).code@) + pr.0
                    && final(self).rec_v() == pr.1,
                Err(e) => r == Err::<(), CompileErr>(e),
            }),
        decreases ls@, 1nat,
    {
        let ghost gls = ls@;
        let ghost rec0 = self.rec_v();
        let ghost code0 = code_v(self.code@);
        if ls.len() != 3 {
            return Err(CompileErr::LetSyntax(info));
        }
        let mut rest = ls;
        let body = rest.pop().unwrap();
        let expr = rest.pop().unwrap();
        let var = rest.pop().unwrap();
        proof {
            assert(var == gls[0]);
            assert(expr == gls[1]);
            assert(body == gls[2]);
            assert(decreases_to!(gls => gls[1]));
            assert(decreases_to!(gls => gls[2]));
        }
        let id = match var.sexpr {
            SExpr::Atom(id) => id,
            _ => {
                return Err(CompileErr::LetBindId(info));
            },
        };
        let ghost glist = self.letrec_id_list@;
        let id2 = id.clone();
        let ghost gid2 = id2;
        self.letrec_id_list.push(id2);
        proof {
            lemma_ids_v_push(glist, gid2);
        }
        let ghost rec1 = self.rec_v();
        match self.compile_(expr) {
            Err(e) => {
                return Err(e);
            },
            Ok(()) => {},
        }
        let ghost pr1 = compile_sp(rec1, gls[1])->Ok_0;
        let instr = CodeOPInfo { info, op: CodeOP::LET(id) };
        let ghost gi = instr;
        let ghost pre = self.code@;
        self.code.push(instr);
        proof {
            lemma_code_v_push(pre, gi);
        }
        let r = self.compile_(body);
        proof {
            match compile_sp(pr1.1, gls[2]) {
                Ok(pr2) => {
                    assert(code_v(self.code@) =~= code0 + (pr1.0 + seq![instr_v(gi)] + pr2.0));
                },
                Err(_) => {},
            }
        }
        r
    }

    /// `puts`: compile the argument, then emit `PUTS`.
    fn compile_puts(&mut self, info: Info, ls: Vec<AST>) -> (r: Result<(), CompileErr>)
        ensures
            (match unary_sp(old(self).rec_v(), info, ls@, CodeOPV::PUTS, CompileErr::PutsSyntax(
                info,
            )) {
                Ok(pr) => r is Ok && code_v(final(self).code@) == code_v(old(self).code@) + pr.0
                    && final(self).rec_v() == pr.1,
                Err(e) => r == Err::<(), CompileErr>(e),
            }),
        decreases ls@, 1nat,
    {
        self.compile_unary(info, ls, CodeOP::PUTS, CompileErr::PutsSyntax(info))
    }

    /// `car`: compile the argument, then emit `CAR`.
    fn compile_car(&mut self, info: Info, ls: Vec<AST>) -> (r: Result<(), CompileErr>)
        ensures
            (match unary_sp(old(self).rec_v(), info, ls@, CodeOPV::CAR, CompileErr::CarSyntax(
                info,
            )) {
                Ok(pr) => r is Ok && code_v(final(self).code@) == code_v(old(self).code@) + pr.0
                    && final(self).rec_v() == pr.1,
                Err(e) => r == Err::<(), CompileErr>(e),
            }),
        decreases ls@, 1nat,
    {
        self.compile_unary(info, ls, CodeOP::CAR, CompileErr::CarSyntax(info))
    }

    /// `cdr`: compile the argument, then emit `CDR`.
    fn compile_cdr(&mut self, info: Info, ls: Vec<AST>) -> (r: Result<(), CompileErr>)
        ensures
            (match unary_sp(old(self).rec_v(), info, ls@, CodeOPV::CDR, CompileErr::CdrSyntax(
                info,
            )) {
                Ok(pr) => r is Ok && code_v(final(self).code@) == code_v(old(self).code@) + pr.0
                    && final(self).rec_v() == pr.1,
                Err(e) => r == Err::<(), CompileErr>(e),
            }),
        decreases ls@, 1nat,
    {
        self.compile_unary(info, ls, CodeOP::CDR, CompileErr::CdrSyntax(info))
    }

    /// A one-argument form: the argument, then the single opcode.
    fn compile_unary(&mut self, info: Info, ls: Vec<AST>, op: CodeOP, err: CompileErr) -> (r:
        Result<(), CompileErr>)
        ensures
            (match unary_sp(old(self).rec_v(), info, ls@, op_v(op), err) {
                Ok(pr) => r is Ok && code_v(final(self).code@) == code_v(old(self).code@) + pr.0
                    && final(self).rec_v() == pr.1,
                Err(e) => r == Err::<(), CompileErr>(e),
            }),
        decreases ls@, 0nat,
    {
        let ghost gls = ls@;
        let ghost rec0 = self.rec_v();
        let ghost code0 = code_v(self.code@);
        if ls.len() != 1 {
            return Err(err);
        }
        let mut rest = ls;
        let expr = rest.pop().unwrap();
        proof {
            assert(expr == gls[0]);
            assert(decreases_to!(gls => gls[0]));
        }
        match self.compile_(expr) {
            Err(e) => {
                return Err(e);
            },
            Ok(()) => {},
        }
        let ghost pr1 = compile_sp(rec0, gls[0])->Ok_0;
        let instr = CodeOPInfo { info, op };
        let ghost gi = instr;
        let ghost pre = self.code@;
        self.code.push(instr);
        proof {
            lemma_code_v_push(pre, gi);
            assert(code_v(self.code@) =~= code0 + (pr1.0 + seq![instr_v(gi)]));
        }
        Ok(())
    }

    /// `eq`: both operands, then `EQ`.
    fn compile_eq(&mut self, info: Info, ls: Vec<AST>) -> (r: Result<(), CompileErr>)
        ensures
            (match binary_sp(old(self).rec_v(), info, ls@, CodeOPV::EQ, CompileErr::EqSyntax(
                info,
            )) {
                Ok(pr) => r is Ok && code_v(final(self).code@) == code_v(old(self).code@) + pr.0
                    && final(self).rec_v() == pr.1,
                Err(e) => r == Err::<(), CompileErr>(e),
            }),
        decreases ls@, 1nat,
    {
        self.compile_binary(info, ls, CodeOP::EQ, CompileErr::EqSyntax(info))
    }

    /// `+`: both operands, then `ADD`.
    fn compile_add(&mut self, info: Info, ls: Vec<AST>) -> (r: Result<(), CompileErr>)
        ensures
            (match binary_sp(old(self).rec_v(), info, ls@, CodeOPV::ADD, CompileErr::AddSyntax(
                info,
            )) {
                Ok(pr) => r is Ok && code_v(final(self).code@) == code_v(old(self).code@) + pr.0
                    && final(self).rec_v() == pr.1,
                Err(e) => r == Err::<(), CompileErr>(e),
            }),
        decreases ls@, 1nat,
    {
        self.compile_binary(info, ls, CodeOP::ADD, CompileErr::AddSyntax(info))
    }

    /// `-`: both operands, then `SUB`.
    fn compile_sub(&mut self, info: Info, ls: Vec<AST>) -> (r: Result<(), CompileErr>)
        ensures
            (match binary_sp(old(self).rec_v(), info, ls@, CodeOPV::SUB, CompileErr::SubSyntax(
                info,
            )) {
                Ok(pr) => r is Ok && code_v(final(self).code@) == code_v(old(self).code@) + pr.0
                    && final(self).rec_v() == pr.1,
                Err(e) => r == Err::<(), CompileErr>(e),
            }),
        decreases ls@, 1nat,
    {
        self.compile_binary(info, ls, CodeOP::SUB, CompileErr::SubSyntax(info))
    }

    /// `cons`: both operands, then `CONS`.
    fn compile_cons(&mut self, info: Info, ls: Vec<AST>) -> (r: Result<(), CompileErr>)
        ensures
            (match binary_sp(old(self).rec_v(), info, ls@, CodeOPV::CONS, CompileErr::ConsSyntax(
                info,
            )) {
                Ok(pr) => r is Ok && code_v(final(self).code@) == code_v(old(self).code@) + pr.0
                    && final(self).rec_v() == pr.1,
                Err(e) => r == Err::<(), CompileErr>(e),
            }),
        decreases ls@, 1nat,
    {
        self.compile_binary(info, ls, CodeOP::CONS, CompileErr::ConsSyntax(info))
    }

    /// A two-argument form: left operand, right operand, the opcode.
    fn compile_binary(&mut self, info: Info, ls: Vec<AST>, op: CodeOP, err: CompileErr) -> (r:
        Result<(), CompileErr>)
        ensures
            (match binary_sp(old(self).rec_v(), info, ls@, op_v(op), err) {
                Ok(pr) => r is Ok && code_v(final(self).code@) == code_v(old(self).code@) + pr.0
                    && final(self).rec_v() == pr.1,
                Err(e) => r == Err::<(), CompileErr>(e),
            }),
        decreases ls@, 0nat,
    {
        let ghost gls = ls@;
        let ghost rec0 = self.rec_v();
        let ghost code0 = code_v(self.code@);
        if ls.len() != 2 {
            return Err(err);
        }
        let mut rest = ls;
        let rhs = rest.pop().unwrap();
        let lhs = rest.pop().unwrap();
        proof {
            assert(lhs == gls[0]);
            assert(rhs == gls[1]);
            assert(decreases_to!(gls => gls[0]));
            assert(decreases_to!(gls => gls[1]));
        }
        match self.compile_(lhs) {
            Err(e) => {
                return Err(e);
            },
            Ok(()) => {},
        }
        let ghost pr1 = compile_sp(rec0, gls[0])->Ok_0;
        match self.compile_(rhs) {
            Err(e) => {
                return Err(e);
            },
            Ok(()) => {},
        }
        let ghost pr2 = compile_sp(pr1.1, gls[1])->Ok_0;
        let instr = CodeOPInfo { info, op };
        let ghost gi = instr;
        let ghost pre = self.code@;
        self.code.push(instr);
        proof {
            lemma_code_v_push(pre, gi);
            assert(code_v(self.code@) =~= code0 + (pr1.0 + pr2.0 + seq![instr_v(gi)]));
        }
        Ok(())
    }

    /// `if`: the condition, then one `SEL` holding the two branches,
    /// each compiled in a fresh sub-compiler and closed by `JOIN`.
    fn compile_if(&mut self, info: Info, ls: Vec<AST>) -> (r: Result<(), CompileErr>)
        ensures
            (match if_sp(old(self).rec_v(), info, ls@) {
                Ok(pr) => r is Ok && code_v(final(self).code@) == code_v(old(self).code@) + pr.0
                    && final(self).rec_v() == pr.1,
                Err(e) => r == Err::<(), CompileErr>(e),
            }),
        decreases ls@, 1nat,
    {
        let ghost gls = ls@;
        let ghost rec0 = self.rec_v();
        let ghost code0 = code_v(self.code@);
        if ls.len() != 3 {
            return Err(CompileErr::IfSyntax(info));
        }
        let mut rest = ls;
        let else_a = rest.pop().unwrap();
        let then_a = rest.pop().unwrap();
        let cond_a = rest.pop().unwrap();
        proof {
            assert(cond_a == gls[0]);
            assert(then_a == gls[1]);
            assert(else_a == gls[2]);
            assert(decreases_to!(gls => gls[0]));
            assert(decreases_to!(gls => gls[1]));
            assert(decreases_to!(gls => gls[2]));
        }
        match self.compile_(cond_a) {
            Err(e) => {
                return Err(e);
            },
            Ok(()) => {},
        }
        let ghost prc = compile_sp(rec0, gls[0])->Ok_0;
        let mut tc = Compiler::new();
        tc.letrec_id_list = clone_ids(&self.letrec_id_list);
        let then_info = then_a.info;
        match tc.compile_(then_a) {
            Err(e) => {
                return Err(e);
            },
            Ok(()) => {},
        }
        let ghost prt = compile_sp(prc.1, gls[1])->Ok_0;
        let jt = CodeOPInfo { info: then_info, op: CodeOP::JOIN };
        let ghost gjt = jt;
        let ghost tpre = tc.code@;
        tc.code.push(jt);
        proof {
            lemma_code_v_push(tpre, gjt);
            assert(code_v(tc.code@) =~= prt.0 + seq![
                CodeOPInfoV { info: gls[1].info, op: CodeOPV::JOIN },
            ]);
        }
        let mut fc = Compiler::new();
        fc.letrec_id_list = clone_ids(&self.letrec_id_list);
        let else_info = else_a.info;
        match fc.compile_(else_a) {
            Err(e) => {
                return Err(e);
            },
            Ok(()) => {},
        }
        let ghost prf = compile_sp(prc.1, gls[2])->Ok_0;
        let jf = CodeOPInfo { info: else_info, op: CodeOP::JOIN };
        let ghost gjf = jf;
        let ghost fpre = fc.code@;
        fc.code.push(jf);
        proof {
            lemma_code_v_push(fpre, gjf);
            assert(code_v(fc.code@) =~= prf.0 + seq![
                CodeOPInfoV { info: gls[2].info, op: CodeOPV::JOIN },
            ]);
        }
        let ghost gtcode = tc.code@;
        let ghost gfcode = fc.code@;
        let instr = CodeOPInfo { info, op: CodeOP::SEL(Rc::new(tc.code), Rc::new(fc.code)) };
        let ghost gi = instr;
        let ghost pre = self.code@;
        self.code.push(instr);
        proof {
            lemma_code_v_push(pre, gi);
            assert(instr_v(gi) == CodeOPInfoV {
                info,
                op: CodeOPV::SEL(code_v(gtcode), code_v(gfcode)),
            });
            assert(code_v(self.code@) =~= code0 + (prc.0 + seq![instr_v(gi)]));
        }
        Ok(())
    }

    /// Application arguments, compiled left to right into this stream.
    fn compile_args(&mut self, args: Vec<AST>) -> (r: Result<(), CompileErr>)
        ensures
            (match compile_seq_sp(old(self).rec_v(), args@) {
                Ok(pr) => r is Ok && code_v(final(self).code@) == code_v(old(self).code@) + pr.0
                    && final(self).rec_v() == pr.1,
                Err(e) => r == Err::<(), CompileErr>(e),
            }),
        decreases args@, 1nat,
    {
        let ghost gargs = args@;
        let ghost rec0 = self.rec_v();
        let ghost code0 = code_v(self.code@);
        if args.len() == 0 {
            proof {
                assert(code_v(self.code@) =~= code0 + Seq::<CodeOPInfoV>::empty());
            }
            return Ok(());
        }
        let mut rest = args;
        let a = rest.remove(0);
        proof {
            assert(a == gargs[0]);
            assert(rest@ =~= gargs.subrange(1, gargs.len() as int));
            assert(decreases_to!(gargs => gargs[0]));
            assert(decreases_to!(gargs => gargs.subrange(1, gargs.len() as int)));
        }
        match self.compile_(a) {
            Err(e) => {
                return Err(e);
            },
            Ok(()) => {},
        }
        let ghost pr1 = compile_sp(rec0, gargs[0])->Ok_0;
        let r = self.compile_args(rest);
        proof {
            match compile_seq_sp(pr1.1, gargs.skip(1)) {
                Ok(pr2) => {
                    assert(code_v(self.code@) =~= code0 + (pr1.0 + pr2.0));
                },
                Err(_) => {},
            }
        }
        r
    }

    /// A function application: arguments, `ARGS(n)`, the head, then
    /// `RAP` for a letrec-bound symbol head, `AP` otherwise.
    fn compile_apply(&mut self, info: Info, lambda: AST, args: Vec<AST>) -> (r: Result<
        (),
        CompileErr,
    >)
        ensures
            (match apply_sp(old(self).rec_v(), info, lambda, args@) {
                Ok(pr) => r is Ok && code_v(final(self).code@) == code_v(old(self).code@) + pr.0
                    && final(self).rec_v() == pr.1,
                Err(e) => r == Err::<(), CompileErr>(e),
            }),
        decreases seq![lambda] + args@, 1nat,
    {
        let ghost glambda = lambda;
        let ghost gargs = args@;
        let ghost rec0 = self.rec_v();
        let ghost code0 = code_v(self.code@);
        proof {
            let combined = seq![glambda] + gargs;
            assert(combined[0] == glambda);
            assert(gargs =~= combined.subrange(1, combined.len() as int));
            assert(decreases_to!(combined => combined[0]));
            assert(decreases_to!(combined => combined.subrange(1, combined.len() as int)));
        }
        let nargs = args.len();
        let idop: Option<String> = match &lambda.sexpr {
            SExpr::Atom(id) => Option::Some(id.clone()),
            _ => Option::None,
        };
        match self.compile_args(args) {
            Err(e) => {
                return Err(e);
            },
            Ok(()) => {},
        }
        let ghost pra = compile_seq_sp(rec0, gargs)->Ok_0;
        let ainstr = CodeOPInfo { info, op: CodeOP::ARGS(nargs) };
        let ghost gai = ainstr;
        let ghost pre1 = self.code@;
        self.code.push(ainstr);
        proof {
            lemma_code_v_push(pre1, gai);
        }
        match self.compile_(lambda) {
            Err(e) => {
                return Err(e);
            },
            Ok(()) => {},
        }
        let ghost prh = compile_sp(pra.1, glambda)->Ok_0;
        let is_rap = match &idop {
            Option::Some(id) => self.contains_rec_id(id),
            Option::None => false,
        };
        let cinstr = CodeOPInfo { info, op: if is_rap { CodeOP::RAP } else { CodeOP::AP } };
        let ghost gci = cinstr;
        let ghost pre2 = self.code@;
        self.code.push(cinstr);
        proof {
            lemma_code_v_push(pre2, gci);
            assert(code_v(self.code@) =~= code0 + (pra.0 + seq![
                CodeOPInfoV { info, op: CodeOPV::ARGS(gargs.len() as int) },
            ] + prh.0 + seq![instr_v(gci)]));
        }
        Ok(())
    }

    /// An integer literal: one `LDC` carrying the integer.
    fn compile_int(&mut self, info: Info, n: i32) -> (r: Result<(), CompileErr>)
        ensures
            r is Ok,
            code_v(final(self).code@) == code_v(old(self).code@) + seq![
                CodeOPInfoV { info, op: CodeOPV::LDC(LispV::Int(n as int)) },
            ],
            final(self).letrec_id_list == old(self).letrec_id_list,
    {
        let instr = CodeOPInfo { info, op: CodeOP::LDC(Rc::new(Lisp::Int(n))) };
        let ghost gi = instr;
        let ghost pre = self.code@;
        self.code.push(instr);
        proof {
            lemma_code_v_push(pre, gi);
            assert(code_v(self.code@) =~= code_v(pre) + seq![instr_v(gi)]);
        }
        Ok(())
    }

    /// A bare symbol: `LDC` for the three reserved names, `LD` otherwise.
    fn compile_atom(&mut self, info: Info, id: String) -> (r: Result<(), CompileErr>)
        ensures
            r is Ok,
            code_v(final(self).code@) == code_v(old(self).code@) + seq![
                CodeOPInfoV { info, op: atom_op_v(id@) },
            ],
            final(self).letrec_id_list == old(self).letrec_id_list,
    {
        let ghost pre = self.code@;
        let instr = if string_eq_lit(&id, "nil") {
            CodeOPInfo { info, op: CodeOP::LDC(Rc::new(Lisp::Nil)) }
        } else if string_eq_lit(&id, "true") {
            CodeOPInfo { info, op: CodeOP::LDC(Rc::new(Lisp::True)) }
        } else if string_eq_lit(&id, "false") {
            CodeOPInfo { info, op: CodeOP::LDC(Rc::new(Lisp::False)) }
        } else {
            CodeOPInfo { info, op: CodeOP::LD(id) }
        };
        let ghost gi = instr;
        self.code.push(instr);
        proof {
            lemma_code_v_push(pre, gi);
            assert(code_v(self.code@) =~= code_v(pre) + seq![instr_v(gi)]);
        }
        Ok(())
    }

    /// An empty list: `LDC` of `Nil`.
    fn compile_nil(&mut self, info: Info) -> (r: Result<(), CompileErr>)
        ensures
            r is Ok,
            code_v(final(self).code@) == code_v(old(self).code@) + seq![
                CodeOPInfoV { info, op: CodeOPV::LDC(LispV::Nil) },
            ],
            final(self).letrec_id_list == old(self).letrec_id_list,
    {
        let instr = CodeOPInfo { info, op: CodeOP::LDC(Rc::new(Lisp::Nil)) };
        let ghost gi = instr;
        let ghost pre = self.code@;
        self.code.push(instr);
        proof {
            lemma_code_v_push(pre, gi);
            assert(code_v(self.code@) =~= code_v(pre) + seq![instr_v(gi)]);
        }
        Ok(())
    }
}

} // verus!
