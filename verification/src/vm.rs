//! The virtual machine: executes an instruction sequence against four
//! registers — value stack, flat environment, code cursor and dump —
//! one instruction at a time, producing a final value or a typed
//! runtime error.

use std::rc::Rc;
use vstd::prelude::*;

use crate::data::Code;
use crate::data::CodeOP;
use crate::data::CodeOPInfo;
use crate::data::CodeOPInfoV;
use crate::data::CodeOPV;
use crate::data::DumpOP;
use crate::data::Env;
use crate::data::Info;
use crate::data::Lisp;
use crate::data::LispV;
use crate::data::RuntimeErr;
use crate::data::code_v;
use crate::data::env_v;
use crate::data::eq_v;
use crate::data::ids_v;
use crate::data::instr_v;
use crate::data::lisp_seq_v;
use crate::data::lisp_v;
use crate::data::op_v;
use crate::data::val_eq;
use crate::data::lemma_code_v_skip_one;
use crate::data::lemma_code_v_len;
use crate::data::lemma_env_v_push;
use crate::data::lemma_env_v_concat;
use crate::data::lemma_lisp_seq_v_index;
use crate::data::lemma_lisp_seq_v_len;
use crate::data::lemma_lisp_seq_v_push;

verus! {

/// The view of one dump frame: the registers a suspended application
/// or conditional will resume with.
#[verifier::ext_equal]
pub enum DumpV {
    DumpAP(Seq<LispV>, Map<Seq<char>, LispV>, Seq<CodeOPInfoV>),
    DumpSEL(Seq<CodeOPInfoV>),
}

/// The view of the whole machine state. `code` is the remaining
/// instruction sequence; `out` collects the values `PUTS` observed,
/// in order.
#[verifier::ext_equal]
pub struct StateV {
    pub stack: Seq<LispV>,
    pub env: Map<Seq<char>, LispV>,
    pub code: Seq<CodeOPInfoV>,
    pub dump: Seq<DumpV>,
    pub out: Seq<LispV>,
}

/// View of one dump frame.
pub open spec fn dump_v(d: DumpOP) -> DumpV {
    match d {
        DumpOP::DumpAP(st, e, c, pc) => DumpV::DumpAP(
            lisp_seq_v(st@),
            env_v(e@),
            code_v(c@.skip(pc as int)),
        ),
        DumpOP::DumpSEL(c, pc) => DumpV::DumpSEL(code_v(c@.skip(pc as int))),
    }
}

/// View of the dump.
pub open spec fn dump_seq_v(s: Seq<DumpOP>) -> Seq<DumpV> {
    s.map_values(|d: DumpOP| dump_v(d))
}

/// A saved code cursor must lie within its code block.
pub open spec fn dump_frame_wf(d: DumpOP) -> bool {
    match d {
        DumpOP::DumpAP(_, _, c, pc) => pc <= c@.len(),
        DumpOP::DumpSEL(c, pc) => pc <= c@.len(),
    }
}

/// Integer arithmetic wraps at the fixed 32-bit width.
pub open spec fn wrap_i32(x: int) -> int {
    if x > i32::MAX {
        x - 0x1_0000_0000
    } else if x < i32::MIN {
        x + 0x1_0000_0000
    } else {
        x
    }
}

/// The environment after binding `ps` positionally to `vs`, left to
/// right, a later parameter shadowing an earlier one of the same name.
pub open spec fn bind_args(
    env: Map<Seq<char>, LispV>,
    ps: Seq<Seq<char>>,
    vs: Seq<LispV>,
) -> Map<Seq<char>, LispV>
    decreases ps.len(),
{
    if ps.len() == 0 {
        env
    } else {
        bind_args(env, ps.subrange(0, ps.len() - 1), vs.subrange(0, vs.len() - 1)).insert(
            ps[ps.len() - 1],
            vs[vs.len() - 1],
        )
    }
}

/// `AP` and `RAP`: pop the closure and its argument list, save the
/// caller's registers on the dump, and enter the closure body. `AP`
/// switches into the closure's captured environment extended with the
/// argument bindings; `RAP` extends the caller's live environment with
/// those same bindings instead, which is what lets a letrec name
/// resolve to itself across recursive calls.
pub open spec fn ap_sp(st: StateV, info: Info, is_rec: bool) -> Result<StateV, RuntimeErr> {
    if st.stack.len() == 0 {
        Err(RuntimeErr::StackUnderflow(info))
    } else {
        match st.stack.last() {
            LispV::Closure(ps, body, cenv) => {
                if st.stack.len() == 1 {
                    Err(RuntimeErr::StackUnderflow(info))
                } else {
                    match st.stack[st.stack.len() - 2] {
                        LispV::List(vals) => {
                            if vals.len() != ps.len() {
                                Err(
                                    if is_rec {
                                        RuntimeErr::RapWrongArgCount(info)
                                    } else {
                                        RuntimeErr::ApWrongArgCount(info)
                                    },
                                )
                            } else {
                                let bound = bind_args(cenv, ps, vals);
                                Ok(
                                    StateV {
                                        stack: Seq::empty(),
                                        env: if is_rec {
                                            st.env.union_prefer_right(bound)
                                        } else {
                                            bound
                                        },
                                        code: body,
                                        dump: st.dump.push(
                                            DumpV::DumpAP(
                                                st.stack.take(st.stack.len() - 2),
                                                st.env,
                                                st.code,
                                            ),
                                        ),
                                        out: st.out,
                                    },
                                )
                            }
                        },
                        _ => Err(
                            if is_rec {
                                RuntimeErr::RapExpectedList(info)
                            } else {
                                RuntimeErr::ApExpectedList(info)
                            },
                        ),
                    }
                }
            },
            _ => Err(
                if is_rec {
                    RuntimeErr::RapExpectedClosure(info)
                } else {
                    RuntimeErr::ApExpectedClosure(info)
                },
            ),
        }
    }
}

/// The effect of one instruction on a machine state whose code cursor
/// has already moved past it. This is the reference meaning of the
/// virtual machine, opcode by opcode.
pub open spec fn step_sp(st: StateV, i: CodeOPInfoV) -> Result<StateV, RuntimeErr> {
    match i.op {
        CodeOPV::LDC(v) => Ok(StateV { stack: st.stack.push(v), ..st }),
        CodeOPV::LD(id) => if st.env.contains_key(id) {
            Ok(StateV { stack: st.stack.push(st.env[id]), ..st })
        } else {
            Err(RuntimeErr::UnboundId(i.info))
        },
        CodeOPV::LDF(ps, body) => Ok(
            StateV { stack: st.stack.push(LispV::Closure(ps, body, st.env)), ..st },
        ),
        CodeOPV::LET(id) => if st.stack.len() == 0 {
            Err(RuntimeErr::StackUnderflow(i.info))
        } else {
            Ok(
                StateV {
                    stack: st.stack.drop_last(),
                    env: st.env.insert(id, st.stack.last()),
                    ..st
                },
            )
        },
        CodeOPV::AP => ap_sp(st, i.info, false),
        CodeOPV::RAP => ap_sp(st, i.info, true),
        CodeOPV::RET => if st.stack.len() == 0 {
            Err(RuntimeErr::StackUnderflow(i.info))
        } else if st.dump.len() == 0 {
            Err(RuntimeErr::DumpUnderflow(i.info))
        } else {
            match st.dump.last() {
                DumpV::DumpAP(s, e, c) => Ok(
                    StateV {
                        stack: s.push(st.stack.last()),
                        env: e,
                        code: c,
                        dump: st.dump.drop_last(),
                        out: st.out,
                    },
                ),
                _ => Err(RuntimeErr::RetExpectedDumpAP(i.info)),
            }
        },
        CodeOPV::ARGS(n) => if st.stack.len() < n || n < 0 {
            Err(RuntimeErr::StackUnderflow(i.info))
        } else {
            Ok(
                StateV {
                    stack: st.stack.take(st.stack.len() - n).push(
                        LispV::List(st.stack.skip(st.stack.len() - n)),
                    ),
                    ..st
                },
            )
        },
        CodeOPV::PUTS => if st.stack.len() == 0 {
            Err(RuntimeErr::StackUnderflow(i.info))
        } else {
            Ok(StateV { out: st.out.push(st.stack.last()), ..st })
        },
        CodeOPV::SEL(t, f) => if st.stack.len() == 0 {
            Err(RuntimeErr::StackUnderflow(i.info))
        } else {
            match st.stack.last() {
                LispV::True => Ok(
                    StateV {
                        stack: st.stack.drop_last(),
                        code: t,
                        dump: st.dump.push(DumpV::DumpSEL(st.code)),
                        ..st
                    },
                ),
                LispV::False => Ok(
                    StateV {
                        stack: st.stack.drop_last(),
                        code: f,
                        dump: st.dump.push(DumpV::DumpSEL(st.code)),
                        ..st
                    },
                ),
                _ => Err(RuntimeErr::SelExpectedBool(i.info)),
            }
        },
        CodeOPV::JOIN => if st.dump.len() == 0 {
            Err(RuntimeErr::DumpUnderflow(i.info))
        } else {
            match st.dump.last() {
                DumpV::DumpSEL(c) => Ok(
                    StateV { code: c, dump: st.dump.drop_last(), ..st },
                ),
                _ => Err(RuntimeErr::JoinExpectedDumpSEL(i.info)),
            }
        },
        CodeOPV::EQ => if st.stack.len() < 2 {
            Err(RuntimeErr::StackUnderflow(i.info))
        } else {
            let a = st.stack.last();
            let b = st.stack[st.stack.len() - 2];
            Ok(
                StateV {
                    stack: st.stack.take(st.stack.len() - 2).push(
                        if eq_v(a, b) {
                            LispV::True
                        } else {
                            LispV::False
                        },
                    ),
                    ..st
                },
            )
        },
        CodeOPV::ADD => if st.stack.len() == 0 {
            Err(RuntimeErr::StackUnderflow(i.info))
        } else {
            match st.stack.last() {
                LispV::Int(n) => if st.stack.len() == 1 {
                    Err(RuntimeErr::StackUnderflow(i.info))
                } else {
                    match st.stack[st.stack.len() - 2] {
                        LispV::Int(m) => Ok(
                            StateV {
                                stack: st.stack.take(st.stack.len() - 2).push(
                                    LispV::Int(wrap_i32(m + n)),
                                ),
                                ..st
                            },
                        ),
                        _ => Err(RuntimeErr::AddExpectedInt(i.info)),
                    }
                },
                _ => Err(RuntimeErr::AddExpectedInt(i.info)),
            }
        },
        CodeOPV::SUB => if st.stack.len() == 0 {
            Err(RuntimeErr::StackUnderflow(i.info))
        } else {
            match st.stack.last() {
                LispV::Int(n) => if st.stack.len() == 1 {
                    Err(RuntimeErr::StackUnderflow(i.info))
                } else {
                    match st.stack[st.stack.len() - 2] {
                        LispV::Int(m) => Ok(
                            StateV {
                                stack: st.stack.take(st.stack.len() - 2).push(
                                    LispV::Int(wrap_i32(m - n)),
                                ),
                                ..st
                            },
                        ),
                        _ => Err(RuntimeErr::SubExpectedInt(i.info)),
                    }
                },
                _ => Err(RuntimeErr::SubExpectedInt(i.info)),
            }
        },
        CodeOPV::CONS => if st.stack.len() < 2 {
            Err(RuntimeErr::StackUnderflow(i.info))
        } else {
            let a = st.stack.last();
            let b = st.stack[st.stack.len() - 2];
            Ok(
                StateV {
                    stack: st.stack.take(st.stack.len() - 2).push(
                        LispV::Cons(Box::new(b), Box::new(a)),
                    ),
                    ..st
                },
            )
        },
        CodeOPV::CAR => if st.stack.len() == 0 {
            Err(RuntimeErr::StackUnderflow(i.info))
        } else {
            match st.stack.last() {
                LispV::Cons(x, _) => Ok(StateV { stack: st.stack.drop_last().push(*x), ..st }),
                _ => Err(RuntimeErr::CarExpectedCons(i.info)),
            }
        },
        CodeOPV::CDR => if st.stack.len() == 0 {
            Err(RuntimeErr::StackUnderflow(i.info))
        } else {
            match st.stack.last() {
                LispV::Cons(_, y) => Ok(StateV { stack: st.stack.drop_last().push(*y), ..st }),
                _ => Err(RuntimeErr::CdrExpectedCons(i.info)),
            }
        },
    }
}

/// Running the machine for at most `fuel` steps: the final state when
/// the code is exhausted, `Ok(None)` when the budget runs out first,
/// or the first runtime error.
pub open spec fn run_sp(st: StateV, fuel: nat) -> Result<Option<StateV>, RuntimeErr>
    decreases fuel,
{
    if st.code.len() == 0 {
        Ok(Some(st))
    } else if fuel == 0 {
        Ok(None)
    } else {
        let i = st.code[0];
        let st1 = StateV { code: st.code.skip(1), ..st };
        match step_sp(st1, i) {
            Ok(st2) => run_sp(st2, (fuel - 1) as nat),
            Err(e) => Err(e),
        }
    }
}

/// View of a value-sequence slice.
pub proof fn lemma_lisp_seq_v_subrange(s: Seq<Rc<Lisp>>, a: int, b: int)
    requires
        0 <= a <= b <= s.len(),
    ensures
        lisp_seq_v(s.subrange(a, b)) == lisp_seq_v(s).subrange(a, b),
{
    lemma_lisp_seq_v_len(s);
    lemma_lisp_seq_v_len(s.subrange(a, b));
    assert forall|k: int| 0 <= k < b - a implies lisp_seq_v(s.subrange(a, b))[k] == lisp_seq_v(
        s,
    ).subrange(a, b)[k] by {
        lemma_lisp_seq_v_index(s.subrange(a, b), k);
        lemma_lisp_seq_v_index(s, a + k);
    }
    assert(lisp_seq_v(s.subrange(a, b)) =~= lisp_seq_v(s).subrange(a, b));
}

/// View of the dump, push form.
pub proof fn lemma_dump_v_push(s: Seq<DumpOP>, x: DumpOP)
    ensures
        dump_seq_v(s.push(x)) == dump_seq_v(s).push(dump_v(x)),
{
    assert(dump_seq_v(s.push(x)) =~= dump_seq_v(s).push(dump_v(x)));
}

/// Duplicate an environment, binding for binding.
fn clone_env(e: &Env) -> (r: Env)
    ensures
        r@ == e@,
{
    let mut r: Env = Vec::new();
    let mut i: usize = 0;
    while i < e.len()
        invariant
            0 <= i <= e.len(),
            r@ =~= e@.take(i as int),
        decreases e.len() - i,
    {
        let p = (e[i].0.clone(), e[i].1.clone());
        proof {
            assert(p == e@[i as int]);
            assert(e@.take((i + 1) as int) =~= e@.take(i as int).push(e@[i as int]));
        }
        r.push(p);
        i = i + 1;
    }
    proof {
        assert(e@.take(e.len() as int) =~= e@);
    }
    r
}

/// Look an identifier up, the latest binding first.
#[verifier::loop_isolation(false)]
fn env_get<'a>(e: &'a Env, id: &String) -> (r: Option<&'a Rc<Lisp>>)
    ensures
        (match r {
            Some(v) => env_v(e@).contains_key(id@) && lisp_v(**v) == env_v(e@)[id@],
            None => !env_v(e@).contains_key(id@),
        }),
{
    let mut i: usize = e.len();
    proof {
        assert(e@.take(e@.len() as int) =~= e@);
    }
    while i > 0
        invariant
            0 <= i <= e@.len(),
            env_v(e@).contains_key(id@) == env_v(e@.take(i as int)).contains_key(id@),
            env_v(e@).contains_key(id@) ==> env_v(e@)[id@] == env_v(e@.take(i as int))[id@],
        decreases i,
    {
        let ghost ti = e@.take(i as int);
        proof {
            assert(ti.subrange(0, ti.len() - 1) =~= e@.take(i - 1));
            assert(ti[ti.len() - 1] == e@[i - 1]);
        }
        if e[i - 1].0 == *id {
            proof {
                assert(env_v(ti).contains_key(id@));
                assert(env_v(ti)[id@] == lisp_v(*e@[i - 1].1));
            }
            return Some(&e[i - 1].1);
        }
        i = i - 1;
    }
    proof {
        assert(e@.take(0) =~= Seq::<(String, Rc<Lisp>)>::empty());
    }
    None
}

/// The SECD machine: a value stack, a flat environment, a code cursor
/// into a shared code block, a dump of continuation frames, and the
/// collected `PUTS` output.
pub struct SECD {
    stack: Vec<Rc<Lisp>>,
    env: Env,
    code: Rc<Code>,
    pc: usize,
    dump: Vec<DumpOP>,
    out: Vec<Rc<Lisp>>,
}

impl View for SECD {
    type V = StateV;

    closed spec fn view(&self) -> StateV {
        StateV {
            stack: lisp_seq_v(self.stack@),
            env: env_v(self.env@),
            code: code_v(self.code@.skip(self.pc as int)),
            dump: dump_seq_v(self.dump@),
            out: lisp_seq_v(self.out@),
        }
    }
}

impl SECD {
    /// The code cursor lies within the code block, in the registers
    /// and in every saved frame.
    pub closed spec fn wf(self) -> bool {
        &&& self.pc <= self.code@.len()
        &&& forall|i: int| 0 <= i < self.dump@.len() ==> dump_frame_wf(#[trigger] self.dump@[i])
    }

    /// A fresh machine about to execute `c`: empty stack, empty
    /// environment, empty dump, no output yet.
    pub fn new(c: Code) -> (s: SECD)
        ensures
            s.wf(),
            s@ == (StateV {
                stack: Seq::<LispV>::empty(),
                env: Map::<Seq<char>, LispV>::empty(),
                code: code_v(c@),
                dump: Seq::<DumpV>::empty(),
                out: Seq::<LispV>::empty(),
            }),
    {
        let ghost gc = c@;
        let s = SECD {
            stack: Vec::new(),
            env: Vec::new(),
            code: Rc::new(c),
            pc: 0,
            dump: Vec::new(),
            out: Vec::new(),
        };
        proof {
            assert(gc.skip(0) =~= gc);
            assert(s@ =~= StateV {
                stack: Seq::<LispV>::empty(),
                env: Map::<Seq<char>, LispV>::empty(),
                code: code_v(gc),
                dump: Seq::<DumpV>::empty(),
                out: Seq::<LispV>::empty(),
            });
        }
        s
    }

    /// The values `PUTS` has observed so far, oldest first.
    pub fn output(&self) -> (r: &Vec<Rc<Lisp>>)
        ensures
            lisp_seq_v(r@) == self@.out,
    {
        &self.out
    }

    /// Run the program to completion, or to the first runtime error,
    /// or until `fuel` instructions have been executed.
    pub fn run(&mut self, fuel: u64) -> (r: Result<Rc<Lisp>, RuntimeErr>)
        requires
            old(self).wf(),
        ensures
            (match run_sp(old(self)@, fuel as nat) {
                Ok(Some(st)) => if st.stack.len() > 0 {
                    r matches Ok(v) && lisp_v(*v) == st.stack.last() && final(self)@ == st
                        && final(self).wf()
                } else {
                    r == Err::<Rc<Lisp>, RuntimeErr>(RuntimeErr::EmptyStack)
                },
                Ok(None) => r == Err::<Rc<Lisp>, RuntimeErr>(RuntimeErr::StepLimit),
                Err(e) => r == Err::<Rc<Lisp>, RuntimeErr>(e),
            }),
    {
        match self.run_(fuel) {
            Err(e) => Err(e),
            Ok(false) => Err(RuntimeErr::StepLimit),
            Ok(true) => {
                proof {
                    lemma_lisp_seq_v_len(self.stack@);
                }
                if self.stack.len() == 0 {
                    Err(RuntimeErr::EmptyStack)
                } else {
                    let v = self.stack[self.stack.len() - 1].clone();
                    proof {
                        lemma_lisp_seq_v_index(self.stack@, self.stack@.len() - 1);
                    }
                    Ok(v)
                }
            },
        }
    }

    /// The fetch-execute loop: `Ok(true)` when the code is exhausted,
    /// `Ok(false)` when the step budget ran out first.
    #[verifier::loop_isolation(false)]
    fn run_(&mut self, fuel: u64) -> (r: Result<bool, RuntimeErr>)
        requires
            old(self).wf(),
        ensures
            (match r {
                Ok(true) => run_sp(old(self)@, fuel as nat) == Ok::<Option<StateV>, RuntimeErr>(
                    Some(final(self)@),
                ) && final(self).wf(),
                Ok(false) => run_sp(old(self)@, fuel as nat) == Ok::<Option<StateV>, RuntimeErr>(
                    None,
                ),
                Err(e) => run_sp(old(self)@, fuel as nat) == Err::<Option<StateV>, RuntimeErr>(e),
            }),
    {
        let ghost st0 = old(self)@;
        let mut remaining: u64 = fuel;
        while self.pc < self.code.len()
            invariant
                self.wf(),
                remaining <= fuel,
                run_sp(st0, fuel as nat) == run_sp(self@, remaining as nat),
            decreases remaining,
        {
            proof {
                lemma_code_v_len(self.code@.skip(self.pc as int));
            }
            if remaining == 0 {
                return Ok(false);
            }
            remaining = remaining - 1;
            let ghost stpre = self@;
            let ghost grem = remaining;
            let code_rc = self.code.clone();
            let c = &(*code_rc)[self.pc];
            self.pc = self.pc + 1;
            proof {
                lemma_code_v_skip_one(code_rc@, self.pc - 1);
                assert(self@.code == code_v(code_rc@.skip(self.pc as int)));
                assert(stpre.code[0] == instr_v(*c));
                assert(stpre.code.skip(1) =~= self@.code);
                assert(self@ =~= StateV { code: stpre.code.skip(1), ..stpre });
            }
            let ghost st1 = self@;
            let res = match &c.op {
                CodeOP::LET(id) => self.run_let(c, id),
                CodeOP::LD(id) => self.run_ld(c, id),
                CodeOP::LDC(l) => self.run_ldc(c, l),
                CodeOP::LDF(names, codef) => self.run_ldf(c, names, codef),
                CodeOP::RET => self.run_ret(c),
                CodeOP::AP => self.run_ap(c),
                CodeOP::RAP => self.run_rap(c),
                CodeOP::ARGS(n) => self.run_args(c, *n),
                CodeOP::PUTS => self.run_puts(c),
                CodeOP::SEL(t, f) => self.run_sel(c, t, f),
                CodeOP::JOIN => self.run_join(c),
                CodeOP::EQ => self.run_eq(c),
                CodeOP::ADD => self.run_add(c),
                CodeOP::SUB => self.run_sub(c),
                CodeOP::CONS => self.run_cons(c),
                CodeOP::CAR => self.run_car(c),
                CodeOP::CDR => self.run_cdr(c),
            };
            match res {
                Ok(()) => {
                    proof {
                        assert(step_sp(st1, instr_v(*c)) == Ok::<StateV, RuntimeErr>(self@));
                        assert(run_sp(stpre, (grem + 1) as nat) == run_sp(self@, grem as nat));
                    }
                },
                Err(e) => {
                    proof {
                        assert(step_sp(st1, instr_v(*c)) == Err::<StateV, RuntimeErr>(e));
                        assert(run_sp(stpre, (grem + 1) as nat) == Err::<Option<StateV>,
                            RuntimeErr,
                        >(e));
                    }
                    return Err(e);
                },
            }
        }
        proof {
            lemma_code_v_len(self.code@.skip(self.pc as int));
            assert(self@.code.len() == 0);
            assert(run_sp(self@, remaining as nat) == Ok::<Option<StateV>, RuntimeErr>(
                Some(self@),
            ));
        }
        Ok(true)
    }

    /// `LET`: pop the bound value and insert it into the environment.
    fn run_let(&mut self, c: &CodeOPInfo, id: &String) -> (r: Result<(), RuntimeErr>)
        requires
            old(self).wf(),
            op_v(c.op) == CodeOPV::LET(id@),
        ensures
            (match step_sp(old(self)@, instr_v(*c)) {
                Ok(st2) => r is Ok && final(self)@ == st2 && final(self).wf(),
                Err(e) => r == Err::<(), RuntimeErr>(e),
            }),
    {
        let ghost st = self@;
        proof {
            lemma_lisp_seq_v_len(self.stack@);
        }
        if self.stack.len() == 0 {
            return Err(RuntimeErr::StackUnderflow(c.info));
        }
        let ghost gstack = self.stack@;
        let v = self.stack.pop().unwrap();
        let id2 = id.clone();
        let pair = (id2, v);
        let ghost gp = pair;
        let ghost genv = self.env@;
        self.env.push(pair);
        proof {
            lemma_env_v_push(genv, gp);
            lemma_lisp_seq_v_index(gstack, gstack.len() - 1);
            lemma_lisp_seq_v_subrange(gstack, 0, gstack.len() - 1);
            assert(gstack.subrange(0, gstack.len() - 1) =~= self.stack@);
            assert(st.stack.drop_last() =~= lisp_seq_v(self.stack@));
            assert(self@ =~= StateV {
                stack: st.stack.drop_last(),
                env: st.env.insert(id@, st.stack.last()),
                ..st
            });
        }
        Ok(())
    }

    /// `LD`: push the bound value of an identifier.
    fn run_ld(&mut self, c: &CodeOPInfo, id: &String) -> (r: Result<(), RuntimeErr>)
        requires
            old(self).wf(),
            op_v(c.op) == CodeOPV::LD(id@),
        ensures
            (match step_sp(old(self)@, instr_v(*c)) {
                Ok(st2) => r is Ok && final(self)@ == st2 && final(self).wf(),
                Err(e) => r == Err::<(), RuntimeErr>(e),
            }),
    {
        let ghost st = self@;
        let found: Option<Rc<Lisp>> = match env_get(&self.env, id) {
            Some(v) => Some(v.clone()),
            None => None,
        };
        match found {
            Some(v) => {
                let ghost gv = v;
                let ghost gstack = self.stack@;
                self.stack.push(v);
                proof {
                    lemma_lisp_seq_v_push(gstack, gv);
                    assert(self@ =~= StateV { stack: st.stack.push(st.env[id@]), ..st });
                }
                Ok(())
            },
            None => Err(RuntimeErr::UnboundId(c.info)),
        }
    }

    /// `LDC`: push the constant.
    fn run_ldc(&mut self, c: &CodeOPInfo, lisp: &Rc<Lisp>) -> (r: Result<(), RuntimeErr>)
        requires
            old(self).wf(),
            op_v(c.op) == CodeOPV::LDC(lisp_v(**lisp)),
        ensures
            (match step_sp(old(self)@, instr_v(*c)) {
                Ok(st2) => r is Ok && final(self)@ == st2 && final(self).wf(),
                Err(e) => r == Err::<(), RuntimeErr>(e),
            }),
    {
        let ghost st = self@;
        let v = lisp.clone();
        let ghost gv = v;
        let ghost gstack = self.stack@;
        self.stack.push(v);
        proof {
            lemma_lisp_seq_v_push(gstack, gv);
            assert(self@ =~= StateV { stack: st.stack.push(lisp_v(**lisp)), ..st });
        }
        Ok(())
    }

    /// `LDF`: push a closure holding the parameter names, the body and
    /// a snapshot of the current environment.
    fn run_ldf(&mut self, c: &CodeOPInfo, names: &Rc<Vec<String>>, codef: &Rc<Code>) -> (r: Result<
        (),
        RuntimeErr,
    >)
        requires
            old(self).wf(),
            op_v(c.op) == CodeOPV::LDF(ids_v(names@), code_v(codef@)),
        ensures
            (match step_sp(old(self)@, instr_v(*c)) {
                Ok(st2) => r is Ok && final(self)@ == st2 && final(self).wf(),
                Err(e) => r == Err::<(), RuntimeErr>(e),
            }),
    {
        let ghost st = self@;
        let envc = clone_env(&self.env);
        let clos = Rc::new(Lisp::Closure(names.clone(), codef.clone(), envc));
        let ghost gclos = clos;
        let ghost gstack = self.stack@;
        self.stack.push(clos);
        proof {
            lemma_lisp_seq_v_push(gstack, gclos);
            assert(lisp_v(*gclos) == LispV::Closure(ids_v(names@), code_v(codef@), st.env));
            assert(self@ =~= StateV {
                stack: st.stack.push(LispV::Closure(ids_v(names@), code_v(codef@), st.env)),
                ..st
            });
        }
        Ok(())
    }

    /// `RET`: pop the return value, restore the registers saved by the
    /// application, and push the value onto the restored stack.
    fn run_ret(&mut self, c: &CodeOPInfo) -> (r: Result<(), RuntimeErr>)
        requires
            old(self).wf(),
            op_v(c.op) == CodeOPV::RET,
        ensures
            (match step_sp(old(self)@, instr_v(*c)) {
                Ok(st2) => r is Ok && final(self)@ == st2 && final(self).wf(),
                Err(e) => r == Err::<(), RuntimeErr>(e),
            }),
    {
        let ghost st = self@;
        proof {
            lemma_lisp_seq_v_len(self.stack@);
        }
        if self.stack.len() == 0 {
            return Err(RuntimeErr::StackUnderflow(c.info));
        }
        let ghost gstack = self.stack@;
        let a = self.stack.pop().unwrap();
        let ghost ga = a;
        if self.dump.len() == 0 {
            return Err(RuntimeErr::DumpUnderflow(c.info));
        }
        let ghost gdump = self.dump@;
        let frame = self.dump.pop().unwrap();
        proof {
            assert(dump_seq_v(gdump)[gdump.len() - 1] == dump_v(gdump[gdump.len() - 1]));
            assert(dump_seq_v(self.dump@) =~= dump_seq_v(gdump).drop_last());
        }
        match frame {
            DumpOP::DumpAP(s, e, codef, pc) => {
                self.stack = s;
                self.env = e;
                self.code = codef;
                self.pc = pc;
                let ghost gstack2 = self.stack@;
                self.stack.push(a);
                proof {
                    lemma_lisp_seq_v_push(gstack2, ga);
                    lemma_lisp_seq_v_index(gstack, gstack.len() - 1);
                    assert(st.dump.last() == dump_v(gdump[gdump.len() - 1]));
                    assert(self@ =~= StateV {
                        stack: st.dump.last()->DumpAP_0.push(st.stack.last()),
                        env: st.dump.last()->DumpAP_1,
                        code: st.dump.last()->DumpAP_2,
                        dump: st.dump.drop_last(),
                        out: st.out,
                    });
                }
                Ok(())
            },
            DumpOP::DumpSEL(_, _) => Err(RuntimeErr::RetExpectedDumpAP(c.info)),
        }
    }

    /// `ARGS(n)`: pop `n` values and push them packed as a `List` in
    /// original left-to-right evaluation order.
    #[verifier::loop_isolation(false)]
    fn run_args(&mut self, c: &CodeOPInfo, n: usize) -> (r: Result<(), RuntimeErr>)
        requires
            old(self).wf(),
            op_v(c.op) == CodeOPV::ARGS(n as int),
        ensures
            (match step_sp(old(self)@, instr_v(*c)) {
                Ok(st2) => r is Ok && final(self)@ == st2 && final(self).wf(),
                Err(e) => r == Err::<(), RuntimeErr>(e),
            }),
    {
        let ghost st = self@;
        proof {
            lemma_lisp_seq_v_len(self.stack@);
        }
        if self.stack.len() < n {
            return Err(RuntimeErr::StackUnderflow(c.info));
        }
        let ghost gstack = self.stack@;
        let idx = self.stack.len() - n;
        let mut vals: Vec<Rc<Lisp>> = Vec::new();
        let mut j: usize = 0;
        while j < n
            invariant
                0 <= j <= n,
                idx + n == gstack.len(),
                gstack == self.stack@,
                vals@ =~= gstack.subrange(idx as int, idx + j),
            decreases n - j,
        {
            vals.push(self.stack[idx + j].clone());
            proof {
                assert(gstack.subrange(idx as int, idx + j + 1) =~= gstack.subrange(
                    idx as int,
                    idx + j,
                ).push(gstack[idx + j]));
            }
            j = j + 1;
        }
        self.stack.truncate(idx);
        let lst = Rc::new(Lisp::List(vals));
        let ghost glst = lst;
        let ghost gstack2 = self.stack@;
        self.stack.push(lst);
        proof {
            lemma_lisp_seq_v_push(gstack2, glst);
            lemma_lisp_seq_v_subrange(gstack, 0, idx as int);
            lemma_lisp_seq_v_subrange(gstack, idx as int, gstack.len() as int);
            assert(gstack2 =~= gstack.subrange(0, idx as int));
            assert(st.stack.take(st.stack.len() - n as int) =~= lisp_seq_v(gstack2));
            assert(glst->List_0@ =~= gstack.subrange(idx as int, gstack.len() as int));
            assert(lisp_v(*glst) == LispV::List(st.stack.skip(st.stack.len() - n as int)));
            assert(self@ =~= StateV {
                stack: st.stack.take(st.stack.len() - n as int).push(
                    LispV::List(st.stack.skip(st.stack.len() - n as int)),
                ),
                ..st
            });
        }
        Ok(())
    }

    /// `PUTS`: record the top of stack in the output, leaving the
    /// stack unchanged.
    fn run_puts(&mut self, c: &CodeOPInfo) -> (r: Result<(), RuntimeErr>)
        requires
            old(self).wf(),
            op_v(c.op) == CodeOPV::PUTS,
        ensures
            (match step_sp(old(self)@, instr_v(*c)) {
                Ok(st2) => r is Ok && final(self)@ == st2 && final(self).wf(),
                Err(e) => r == Err::<(), RuntimeErr>(e),
            }),
    {
        let ghost st = self@;
        proof {
            lemma_lisp_seq_v_len(self.stack@);
        }
        if self.stack.len() == 0 {
            return Err(RuntimeErr::StackUnderflow(c.info));
        }
        let v = self.stack[self.stack.len() - 1].clone();
        let ghost gv = v;
        let ghost gout = self.out@;
        self.out.push(v);
        proof {
            lemma_lisp_seq_v_push(gout, gv);
            lemma_lisp_seq_v_index(self.stack@, self.stack@.len() - 1);
            assert(self@ =~= StateV { out: st.out.push(st.stack.last()), ..st });
        }
        Ok(())
    }

    /// `SEL`: pop the condition, save the current cursor, and continue
    /// in the chosen branch.
    fn run_sel(&mut self, c: &CodeOPInfo, t: &Rc<Code>, f: &Rc<Code>) -> (r: Result<
        (),
        RuntimeErr,
    >)
        requires
            old(self).wf(),
            op_v(c.op) == CodeOPV::SEL(code_v(t@), code_v(f@)),
        ensures
            (match step_sp(old(self)@, instr_v(*c)) {
                Ok(st2) => r is Ok && final(self)@ == st2 && final(self).wf(),
                Err(e) => r == Err::<(), RuntimeErr>(e),
            }),
    {
        let ghost st = self@;
        proof {
            lemma_lisp_seq_v_len(self.stack@);
        }
        if self.stack.len() == 0 {
            return Err(RuntimeErr::StackUnderflow(c.info));
        }
        let ghost gstack = self.stack@;
        let b = self.stack.pop().unwrap();
        proof {
            lemma_lisp_seq_v_index(gstack, gstack.len() - 1);
            lemma_lisp_seq_v_subrange(gstack, 0, gstack.len() - 1);
            assert(gstack.subrange(0, gstack.len() - 1) =~= self.stack@);
        }
        match &*b {
            Lisp::True => {
                let chosen = t.clone();
                let frame = DumpOP::DumpSEL(self.code.clone(), self.pc);
                let ghost gframe = frame;
                let ghost gdump = self.dump@;
                self.dump.push(frame);
                self.code = chosen;
                self.pc = 0;
                proof {
                    lemma_dump_v_push(gdump, gframe);
                    assert(dump_v(gframe) == DumpV::DumpSEL(st.code));
                    assert(self.code@.skip(0) =~= self.code@);
                    assert(self@ =~= StateV {
                        stack: st.stack.drop_last(),
                        code: code_v(t@),
                        dump: st.dump.push(DumpV::DumpSEL(st.code)),
                        ..st
                    });
                }
                Ok(())
            },
            Lisp::False => {
                let chosen = f.clone();
                let frame = DumpOP::DumpSEL(self.code.clone(), self.pc);
                let ghost gframe = frame;
                let ghost gdump = self.dump@;
                self.dump.push(frame);
                self.code = chosen;
                self.pc = 0;
                proof {
                    lemma_dump_v_push(gdump, gframe);
                    assert(dump_v(gframe) == DumpV::DumpSEL(st.code));
                    assert(self.code@.skip(0) =~= self.code@);
                    assert(self@ =~= StateV {
                        stack: st.stack.drop_last(),
                        code: code_v(f@),
                        dump: st.dump.push(DumpV::DumpSEL(st.code)),
                        ..st
                    });
                }
                Ok(())
            },
            _ => Err(RuntimeErr::SelExpectedBool(c.info)),
        }
    }

    /// `JOIN`: restore the cursor saved by the enclosing `SEL`.
    fn run_join(&mut self, c: &CodeOPInfo) -> (r: Result<(), RuntimeErr>)
        requires
            old(self).wf(),
            op_v(c.op) == CodeOPV::JOIN,
        ensures
            (match step_sp(old(self)@, instr_v(*c)) {
                Ok(st2) => r is Ok && final(self)@ == st2 && final(self).wf(),
                Err(e) => r == Err::<(), RuntimeErr>(e),
            }),
    {
        let ghost st = self@;
        if self.dump.len() == 0 {
            return Err(RuntimeErr::DumpUnderflow(c.info));
        }
        let ghost gdump = self.dump@;
        let frame = self.dump.pop().unwrap();
        proof {
            assert(dump_seq_v(gdump)[gdump.len() - 1] == dump_v(gdump[gdump.len() - 1]));
            assert(dump_seq_v(self.dump@) =~= dump_seq_v(gdump).drop_last());
        }
        match frame {
            DumpOP::DumpSEL(codef, pc) => {
                self.code = codef;
                self.pc = pc;
                proof {
                    assert(self@ =~= StateV {
                        code: st.dump.last()->DumpSEL_0,
                        dump: st.dump.drop_last(),
                        ..st
                    });
                }
                Ok(())
            },
            DumpOP::DumpAP(_, _, _, _) => Err(RuntimeErr::JoinExpectedDumpSEL(c.info)),
        }
    }

    /// `EQ`: pop both operands and push the result of structural
    /// equality.
    fn run_eq(&mut self, c: &CodeOPInfo) -> (r: Result<(), RuntimeErr>)
        requires
            old(self).wf(),
            op_v(c.op) == CodeOPV::EQ,
        ensures
            (match step_sp(old(self)@, instr_v(*c)) {
                Ok(st2) => r is Ok && final(self)@ == st2 && final(self).wf(),
                Err(e) => r == Err::<(), RuntimeErr>(e),
            }),
    {
        let ghost st = self@;
        proof {
            lemma_lisp_seq_v_len(self.stack@);
        }
        if self.stack.len() < 2 {
            return Err(RuntimeErr::StackUnderflow(c.info));
        }
        let ghost gstack = self.stack@;
        let a = self.stack.pop().unwrap();
        let b = self.stack.pop().unwrap();
        let eq = val_eq(&*a, &*b);
        let v = Rc::new(if eq {
            Lisp::True
        } else {
            Lisp::False
        });
        let ghost gv = v;
        let ghost gstack2 = self.stack@;
        self.stack.push(v);
        proof {
            lemma_lisp_seq_v_push(gstack2, gv);
            lemma_lisp_seq_v_index(gstack, gstack.len() - 1);
            lemma_lisp_seq_v_index(gstack, gstack.len() - 2);
            assert(gstack2 =~= gstack.subrange(0, gstack.len() - 2));
            lemma_lisp_seq_v_subrange(gstack, 0, gstack.len() - 2);
            assert(st.stack.take(st.stack.len() - 2) =~= lisp_seq_v(gstack2));
            assert(self@ =~= StateV {
                stack: st.stack.take(st.stack.len() - 2).push(
                    if eq_v(st.stack.last(), st.stack[st.stack.len() - 2]) {
                        LispV::True
                    } else {
                        LispV::False
                    },
                ),
                ..st
            });
        }
        Ok(())
    }

    /// `ADD`: pop two integers and push their wrapped sum.
    fn run_add(&mut self, c: &CodeOPInfo) -> (r: Result<(), RuntimeErr>)
        requires
            old(self).wf(),
            op_v(c.op) == CodeOPV::ADD,
        ensures
            (match step_sp(old(self)@, instr_v(*c)) {
                Ok(st2) => r is Ok && final(self)@ == st2 && final(self).wf(),
                Err(e) => r == Err::<(), RuntimeErr>(e),
            }),
    {
        let ghost st = self@;
        proof {
            lemma_lisp_seq_v_len(self.stack@);
        }
        if self.stack.len() == 0 {
            return Err(RuntimeErr::StackUnderflow(c.info));
        }
        let ghost gstack = self.stack@;
        proof {
            lemma_lisp_seq_v_index(gstack, gstack.len() - 1);
        }
        let a = self.stack.pop().unwrap();
        match &*a {
            Lisp::Int(n) => {
                if self.stack.len() == 0 {
                    return Err(RuntimeErr::StackUnderflow(c.info));
                }
                proof {
                    lemma_lisp_seq_v_index(gstack, gstack.len() - 2);
                }
                let b = self.stack.pop().unwrap();
                match &*b {
                    Lisp::Int(m) => {
                        let s = m.wrapping_add(*n);
                        let v = Rc::new(Lisp::Int(s));
                        let ghost gv = v;
                        let ghost gstack2 = self.stack@;
                        self.stack.push(v);
                        proof {
                            lemma_lisp_seq_v_push(gstack2, gv);
                            assert(gstack2 =~= gstack.subrange(0, gstack.len() - 2));
                            lemma_lisp_seq_v_subrange(gstack, 0, gstack.len() - 2);
                            assert(st.stack.take(st.stack.len() - 2) =~= lisp_seq_v(gstack2));
                            assert(s as int == wrap_i32(*m + *n));
                            assert(self@ =~= StateV {
                                stack: st.stack.take(st.stack.len() - 2).push(
                                    LispV::Int(wrap_i32(*m + *n)),
                                ),
                                ..st
                            });
                        }
                        Ok(())
                    },
                    _ => Err(RuntimeErr::AddExpectedInt(c.info)),
                }
            },
            _ => Err(RuntimeErr::AddExpectedInt(c.info)),
        }
    }

    /// `SUB`: pop two integers and push their wrapped difference, the
    /// earlier-pushed operand on the left.
    fn run_sub(&mut self, c: &CodeOPInfo) -> (r: Result<(), RuntimeErr>)
        requires
            old(self).wf(),
            op_v(c.op) == CodeOPV::SUB,
        ensures
            (match step_sp(old(self)@, instr_v(*c)) {
                Ok(st2) => r is Ok && final(self)@ == st2 && final(self).wf(),
                Err(e) => r == Err::<(), RuntimeErr>(e),
            }),
    {
        let ghost st = self@;
        proof {
            lemma_lisp_seq_v_len(self.stack@);
        }
        if self.stack.len() == 0 {
            return Err(RuntimeErr::StackUnderflow(c.info));
        }
        let ghost gstack = self.stack@;
        proof {
            lemma_lisp_seq_v_index(gstack, gstack.len() - 1);
        }
        let a = self.stack.pop().unwrap();
        match &*a {
            Lisp::Int(n) => {
                if self.stack.len() == 0 {
                    return Err(RuntimeErr::StackUnderflow(c.info));
                }
                proof {
                    lemma_lisp_seq_v_index(gstack, gstack.len() - 2);
                }
                let b = self.stack.pop().unwrap();
                match &*b {
                    Lisp::Int(m) => {
                        let s = m.wrapping_sub(*n);
                        let v = Rc::new(Lisp::Int(s));
                        let ghost gv = v;
                        let ghost gstack2 = self.stack@;
                        self.stack.push(v);
                        proof {
                            lemma_lisp_seq_v_push(gstack2, gv);
                            assert(gstack2 =~= gstack.subrange(0, gstack.len() - 2));
                            lemma_lisp_seq_v_subrange(gstack, 0, gstack.len() - 2);
                            assert(st.stack.take(st.stack.len() - 2) =~= lisp_seq_v(gstack2));
                            assert(s as int == wrap_i32(*m - *n));
                            assert(self@ =~= StateV {
                                stack: st.stack.take(st.stack.len() - 2).push(
                                    LispV::Int(wrap_i32(*m - *n)),
                                ),
                                ..st
                            });
                        }
                        Ok(())
                    },
                    _ => Err(RuntimeErr::SubExpectedInt(c.info)),
                }
            },
            _ => Err(RuntimeErr::SubExpectedInt(c.info)),
        }
    }

    /// `CONS`: pop two values and push the pair, the earlier-pushed
    /// value as the first component.
    fn run_cons(&mut self, c: &CodeOPInfo) -> (r: Result<(), RuntimeErr>)
        requires
            old(self).wf(),
            op_v(c.op) == CodeOPV::CONS,
        ensures
            (match step_sp(old(self)@, instr_v(*c)) {
                Ok(st2) => r is Ok && final(self)@ == st2 && final(self).wf(),
                Err(e) => r == Err::<(), RuntimeErr>(e),
            }),
    {
        let ghost st = self@;
        proof {
            lemma_lisp_seq_v_len(self.stack@);
        }
        if self.stack.len() < 2 {
            return Err(RuntimeErr::StackUnderflow(c.info));
        }
        let ghost gstack = self.stack@;
        let a = self.stack.pop().unwrap();
        let b = self.stack.pop().unwrap();
        let v = Rc::new(Lisp::Cons(b, a));
        let ghost gv = v;
        let ghost gstack2 = self.stack@;
        self.stack.push(v);
        proof {
            lemma_lisp_seq_v_push(gstack2, gv);
            lemma_lisp_seq_v_index(gstack, gstack.len() - 1);
            lemma_lisp_seq_v_index(gstack, gstack.len() - 2);
            assert(gstack2 =~= gstack.subrange(0, gstack.len() - 2));
            lemma_lisp_seq_v_subrange(gstack, 0, gstack.len() - 2);
            assert(st.stack.take(st.stack.len() - 2) =~= lisp_seq_v(gstack2));
            assert(self@ =~= StateV {
                stack: st.stack.take(st.stack.len() - 2).push(
                    LispV::Cons(
                        Box::new(st.stack[st.stack.len() - 2]),
                        Box::new(st.stack.last()),
                    ),
                ),
                ..st
            });
        }
        Ok(())
    }

    /// `CAR`: pop a pair and push its first component.
    fn run_car(&mut self, c: &CodeOPInfo) -> (r: Result<(), RuntimeErr>)
        requires
            old(self).wf(),
            op_v(c.op) == CodeOPV::CAR,
        ensures
            (match step_sp(old(self)@, instr_v(*c)) {
                Ok(st2) => r is Ok && final(self)@ == st2 && final(self).wf(),
                Err(e) => r == Err::<(), RuntimeErr>(e),
            }),
    {
        let ghost st = self@;
        proof {
            lemma_lisp_seq_v_len(self.stack@);
        }
        if self.stack.len() == 0 {
            return Err(RuntimeErr::StackUnderflow(c.info));
        }
        let ghost gstack = self.stack@;
        proof {
            lemma_lisp_seq_v_index(gstack, gstack.len() - 1);
            lemma_lisp_seq_v_subrange(gstack, 0, gstack.len() - 1);
        }
        let a = self.stack.pop().unwrap();
        match &*a {
            Lisp::Cons(x, _) => {
                let v = x.clone();
                let ghost gv = v;
                let ghost gstack2 = self.stack@;
                self.stack.push(v);
                proof {
                    lemma_lisp_seq_v_push(gstack2, gv);
                    assert(gstack2 =~= gstack.subrange(0, gstack.len() - 1));
                    assert(st.stack.drop_last() =~= lisp_seq_v(gstack2));
                    assert(self@ =~= StateV {
                        stack: st.stack.drop_last().push(*st.stack.last()->Cons_0),
                        ..st
                    });
                }
                Ok(())
            },
            _ => Err(RuntimeErr::CarExpectedCons(c.info)),
        }
    }

    /// `CDR`: pop a pair and push its second component.
    fn run_cdr(&mut self, c: &CodeOPInfo) -> (r: Result<(), RuntimeErr>)
        requires
            old(self).wf(),
            op_v(c.op) == CodeOPV::CDR,
        ensures
            (match step_sp(old(self)@, instr_v(*c)) {
                Ok(st2) => r is Ok && final(self)@ == st2 && final(self).wf(),
                Err(e) => r == Err::<(), RuntimeErr>(e),
            }),
    {
        let ghost st = self@;
        proof {
            lemma_lisp_seq_v_len(self.stack@);
        }
        if self.stack.len() == 0 {
            return Err(RuntimeErr::StackUnderflow(c.info));
        }
        let ghost gstack = self.stack@;
        proof {
            lemma_lisp_seq_v_index(gstack, gstack.len() - 1);
            lemma_lisp_seq_v_subrange(gstack, 0, gstack.len() - 1);
        }
        let a = self.stack.pop().unwrap();
        match &*a {
            Lisp::Cons(_, y) => {
                let v = y.clone();
                let ghost gv = v;
                let ghost gstack2 = self.stack@;
                self.stack.push(v);
                proof {
                    lemma_lisp_seq_v_push(gstack2, gv);
                    assert(gstack2 =~= gstack.subrange(0, gstack.len() - 1));
                    assert(st.stack.drop_last() =~= lisp_seq_v(gstack2));
                    assert(self@ =~= StateV {
                        stack: st.stack.drop_last().push(*st.stack.last()->Cons_1),
                        ..st
                    });
                }
                Ok(())
            },
            _ => Err(RuntimeErr::CdrExpectedCons(c.info)),
        }
    }

    /// `AP`: apply a closure to its packed arguments, saving the
    /// caller's registers and entering the captured environment
    /// extended with the argument bindings.
    #[verifier::loop_isolation(false)]
    fn run_ap(&mut self, c: &CodeOPInfo) -> (r: Result<(), RuntimeErr>)
        requires
            old(self).wf(),
            op_v(c.op) == CodeOPV::AP,
        ensures
            (match step_sp(old(self)@, instr_v(*c)) {
                Ok(st2) => r is Ok && final(self)@ == st2 && final(self).wf(),
                Err(e) => r == Err::<(), RuntimeErr>(e),
            }),
    {
        let ghost st = self@;
        proof {
            lemma_lisp_seq_v_len(self.stack@);
            if self.stack@.len() > 0 {
                lemma_lisp_seq_v_index(self.stack@, self.stack@.len() - 1);
            }
            if self.stack@.len() > 1 {
                lemma_lisp_seq_v_index(self.stack@, self.stack@.len() - 2);
            }
        }
        if self.stack.len() == 0 {
            return Err(RuntimeErr::StackUnderflow(c.info));
        }
        let ghost gstack = self.stack@;
        let clos = self.stack.pop().unwrap();
        match &*clos {
            Lisp::Closure(names, codef, cenv) => {
                if self.stack.len() == 0 {
                    return Err(RuntimeErr::StackUnderflow(c.info));
                }
                let argsv = self.stack.pop().unwrap();
                match &*argsv {
                    Lisp::List(vals) => {
                        proof {
                            lemma_lisp_seq_v_len(vals@);
                        }
                        if vals.len() != names.len() {
                            return Err(RuntimeErr::ApWrongArgCount(c.info));
                        }
                        let newenv = self.bound_env(names, codef, cenv, vals);
                        let mut saved_stack: Vec<Rc<Lisp>> = Vec::new();
                        core::mem::swap(&mut self.stack, &mut saved_stack);
                        let mut saved_env: Env = newenv;
                        core::mem::swap(&mut self.env, &mut saved_env);
                        let frame = DumpOP::DumpAP(
                            saved_stack,
                            saved_env,
                            self.code.clone(),
                            self.pc,
                        );
                        let ghost gframe = frame;
                        let ghost gdump = self.dump@;
                        self.dump.push(frame);
                        self.code = codef.clone();
                        self.pc = 0;
                        proof {
                            lemma_dump_v_push(gdump, gframe);
                            lemma_lisp_seq_v_subrange(gstack, 0, gstack.len() - 2);
                            assert(gframe->DumpAP_0@ =~= gstack.subrange(0, gstack.len() - 2));
                            assert(dump_v(gframe) == DumpV::DumpAP(
                                st.stack.take(st.stack.len() - 2),
                                st.env,
                                st.code,
                            ));
                            assert(self.code@.skip(0) =~= self.code@);
                            assert(lisp_seq_v(Seq::<Rc<Lisp>>::empty())
                                =~= Seq::<LispV>::empty());
                            assert(self@ =~= ap_sp(st, c.info, false)->Ok_0);
                        }
                        Ok(())
                    },
                    _ => Err(RuntimeErr::ApExpectedList(c.info)),
                }
            },
            _ => Err(RuntimeErr::ApExpectedClosure(c.info)),
        }
    }

    /// `RAP`: like `AP`, but extend the caller's live environment in
    /// place with the closure's captured bindings and the arguments,
    /// so that recursive bindings accumulate into one shared namespace.
    #[verifier::loop_isolation(false)]
    fn run_rap(&mut self, c: &CodeOPInfo) -> (r: Result<(), RuntimeErr>)
        requires
            old(self).wf(),
            op_v(c.op) == CodeOPV::RAP,
        ensures
            (match step_sp(old(self)@, instr_v(*c)) {
                Ok(st2) => r is Ok && final(self)@ == st2 && final(self).wf(),
                Err(e) => r == Err::<(), RuntimeErr>(e),
            }),
    {
        let ghost st = self@;
        proof {
            lemma_lisp_seq_v_len(self.stack@);
            if self.stack@.len() > 0 {
                lemma_lisp_seq_v_index(self.stack@, self.stack@.len() - 1);
            }
            if self.stack@.len() > 1 {
                lemma_lisp_seq_v_index(self.stack@, self.stack@.len() - 2);
            }
        }
        if self.stack.len() == 0 {
            return Err(RuntimeErr::StackUnderflow(c.info));
        }
        let ghost gstack = self.stack@;
        let clos = self.stack.pop().unwrap();
        match &*clos {
            Lisp::Closure(names, codef, cenv) => {
                if self.stack.len() == 0 {
                    return Err(RuntimeErr::StackUnderflow(c.info));
                }
                let argsv = self.stack.pop().unwrap();
                match &*argsv {
                    Lisp::List(vals) => {
                        proof {
                            lemma_lisp_seq_v_len(vals@);
                        }
                        if vals.len() != names.len() {
                            return Err(RuntimeErr::RapWrongArgCount(c.info));
                        }
                        let merged = self.bound_env(names, codef, cenv, vals);
                        let ghost genv0 = self.env@;
                        let ghost gmerged = merged@;
                        let mut extended = clone_env(&self.env);
                        let mut k: usize = 0;
                        while k < merged.len()
                            invariant
                                0 <= k <= merged.len(),
                                gmerged == merged@,
                                extended@ =~= genv0 + gmerged.take(k as int),
                            decreases merged.len() - k,
                        {
                            let p = (merged[k].0.clone(), merged[k].1.clone());
                            proof {
                                assert(p == gmerged[k as int]);
                                assert(genv0 + gmerged.take((k + 1) as int) =~= (genv0
                                    + gmerged.take(k as int)).push(gmerged[k as int]));
                            }
                            extended.push(p);
                            k = k + 1;
                        }
                        proof {
                            assert(gmerged.take(gmerged.len() as int) =~= gmerged);
                            lemma_env_v_concat(genv0, gmerged);
                        }
                        let mut saved_stack: Vec<Rc<Lisp>> = Vec::new();
                        core::mem::swap(&mut self.stack, &mut saved_stack);
                        let mut saved_env: Env = extended;
                        core::mem::swap(&mut self.env, &mut saved_env);
                        let frame = DumpOP::DumpAP(
                            saved_stack,
                            saved_env,
                            self.code.clone(),
                            self.pc,
                        );
                        let ghost gframe = frame;
                        let ghost gdump = self.dump@;
                        self.dump.push(frame);
                        self.code = codef.clone();
                        self.pc = 0;
                        proof {
                            lemma_dump_v_push(gdump, gframe);
                            lemma_lisp_seq_v_subrange(gstack, 0, gstack.len() - 2);
                            assert(gframe->DumpAP_0@ =~= gstack.subrange(0, gstack.len() - 2));
                            assert(dump_v(gframe) == DumpV::DumpAP(
                                st.stack.take(st.stack.len() - 2),
                                st.env,
                                st.code,
                            ));
                            assert(self.code@.skip(0) =~= self.code@);
                            assert(lisp_seq_v(Seq::<Rc<Lisp>>::empty())
                                =~= Seq::<LispV>::empty());
                            assert(self@ =~= ap_sp(st, c.info, true)->Ok_0);
                        }
                        Ok(())
                    },
                    _ => Err(RuntimeErr::RapExpectedList(c.info)),
                }
            },
            _ => Err(RuntimeErr::RapExpectedClosure(c.info)),
        }
    }

    /// The callee environment of an application: the closure's
    /// captured environment with the parameters bound positionally to
    /// the argument values.
    #[verifier::loop_isolation(false)]
    fn bound_env(
        &self,
        names: &Rc<Vec<String>>,
        codef: &Rc<Code>,
        cenv: &Env,
        vals: &Vec<Rc<Lisp>>,
    ) -> (r: Env)
        requires
            vals@.len() == names@.len(),
        ensures
            env_v(r@) == bind_args(env_v(cenv@), ids_v(names@), lisp_seq_v(vals@)),
    {
        let ghost ps = ids_v(names@);
        let ghost vs = lisp_seq_v(vals@);
        proof {
            lemma_lisp_seq_v_len(vals@);
        }
        let mut newenv = clone_env(cenv);
        let mut i: usize = 0;
        proof {
            assert(ps.take(0) =~= Seq::<Seq<char>>::empty());
            assert(vs.take(0) =~= Seq::<LispV>::empty());
        }
        let n = names.len();
        while i < n
            invariant
                0 <= i <= n,
                n == names@.len() == vals@.len(),
                env_v(newenv@) == bind_args(env_v(cenv@), ps.take(i as int), vs.take(i as int)),
            decreases n - i,
        {
            let p = (names[i].clone(), vals[i].clone());
            let ghost gp = p;
            let ghost gnew = newenv@;
            newenv.push(p);
            proof {
                lemma_env_v_push(gnew, gp);
                lemma_lisp_seq_v_index(vals@, i as int);
                assert(gp.0@ == ps[i as int]);
                assert(lisp_v(*gp.1) == vs[i as int]);
                let pi = ps.take((i + 1) as int);
                let vi = vs.take((i + 1) as int);
                assert(pi.subrange(0, pi.len() - 1) =~= ps.take(i as int));
                assert(vi.subrange(0, vi.len() - 1) =~= vs.take(i as int));
                assert(pi[pi.len() - 1] == ps[i as int]);
                assert(vi[vi.len() - 1] == vs[i as int]);
            }
            i = i + 1;
        }
        proof {
            assert(ps.take(n as int) =~= ps);
            assert(vs.take(n as int) =~= vs);
        }
        newenv
    }
}

} // verus!
