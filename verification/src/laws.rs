//! Laws of the compiler and the machine, stated once and proved for
//! every input: what an integer literal compiles to, how `let` binding
//! shadows, the frame symmetry of application and return, the typed
//! failure of a non-boolean branch, structural equality, and the order
//! in which `ARGS` packs its operands.

use vstd::prelude::*;

use crate::compiler::compile_sp;
use crate::compiler::let_sp;
use crate::compiler::remove_id;
use crate::data::AST;
use crate::data::CodeOPInfoV;
use crate::data::CodeOPV;
use crate::data::CompileErr;
use crate::data::Info;
use crate::data::LispV;
use crate::data::RuntimeErr;
use crate::data::SExpr;
use crate::data::eq_seq_v;
use crate::data::eq_v;
use crate::vm::StateV;
use crate::vm::ap_sp;
use crate::vm::step_sp;

verus! {

/// Compiling an integer literal yields exactly one `LDC` instruction
/// carrying that integer, at the literal's own source position, and
/// leaves the letrec-tracking set unchanged.
pub proof fn lemma_compile_int_literal(rec: Seq<Seq<char>>, n: i32, info: Info)
    ensures
        compile_sp(rec, AST { sexpr: SExpr::Int(n), info }) == Ok::<_, CompileErr>(
            (seq![CodeOPInfoV { info, op: CodeOPV::LDC(LispV::Int(n as int)) }], rec),
        ),
{
}

/// In a well-formed `let id expr body`, the binding instruction stands
/// between the compiled expression and the compiled body, so the bound
/// identifier is visible to everything compiled after it in the same
/// unit.
pub proof fn lemma_let_binds_before_body(rec: Seq<Seq<char>>, info: Info, args: Seq<AST>)
    requires
        args.len() == 3,
        args[0].sexpr is Atom,
        let_sp(rec, info, args, false) is Ok,
    ensures
        ({
            let id = args[0].sexpr->Atom_0@;
            let pr1 = compile_sp(remove_id(rec, id), args[1])->Ok_0;
            let pr2 = compile_sp(pr1.1, args[2])->Ok_0;
            let_sp(rec, info, args, false) == Ok::<_, CompileErr>(
                (
                    pr1.0 + seq![CodeOPInfoV { info, op: CodeOPV::LET(id) }] + pr2.0,
                    pr2.1,
                ),
            )
        }),
{
}

/// Executing `LET id` binds the popped value to `id`: afterwards `id`
/// resolves to that value, shadowing any identically-named earlier
/// binding, while every other identifier resolves as before.
pub proof fn lemma_let_shadows(st: StateV, info: Info, id: Seq<char>)
    requires
        st.stack.len() > 0,
    ensures
        step_sp(st, CodeOPInfoV { info, op: CodeOPV::LET(id) }) matches Ok(st2) && {
            &&& st2.env.contains_key(id)
            &&& st2.env[id] == st.stack.last()
            &&& forall|k: Seq<char>|
                k != id ==> (st2.env.contains_key(k) == st.env.contains_key(k) && (
                st.env.contains_key(k) ==> st2.env[k] == st.env[k]))
        },
{
}

/// AP/RET frame symmetry: applying a closure to exactly as many
/// arguments as it has parameters saves the caller's stack (less the
/// two operands), environment and code cursor; the `RET` that later
/// sees that frame restores all three exactly and pushes the single
/// return value onto the restored stack.
pub proof fn lemma_ap_ret_frame_symmetry(st: StateV, info: Info, ret_info: Info, mid: StateV)
    requires
        ap_sp(st, info, false) is Ok,
        mid.dump == ap_sp(st, info, false)->Ok_0.dump,
        mid.stack.len() > 0,
    ensures
        step_sp(mid, CodeOPInfoV { info: ret_info, op: CodeOPV::RET }) matches Ok(ret_st) && {
            &&& ret_st.stack == st.stack.take(st.stack.len() - 2).push(mid.stack.last())
            &&& ret_st.env == st.env
            &&& ret_st.code == st.code
            &&& ret_st.dump == st.dump
        },
{
    let stA = ap_sp(st, info, false)->Ok_0;
    let frame = crate::vm::DumpV::DumpAP(st.stack.take(st.stack.len() - 2), st.env, st.code);
    assert(stA.dump == st.dump.push(frame));
    assert(mid.dump.last() == frame);
    assert(mid.dump.drop_last() =~= st.dump);
}

/// `SEL` on a value that is neither `True` nor `False` fails with the
/// typed runtime error carrying the instruction's position; it never
/// coerces.
pub proof fn lemma_sel_non_boolean(
    st: StateV,
    info: Info,
    t: Seq<CodeOPInfoV>,
    f: Seq<CodeOPInfoV>,
)
    requires
        st.stack.len() > 0,
        !(st.stack.last() is True),
        !(st.stack.last() is False),
    ensures
        step_sp(st, CodeOPInfoV { info, op: CodeOPV::SEL(t, f) }) == Err::<StateV, RuntimeErr>(
            RuntimeErr::SelExpectedBool(info),
        ),
{
}

/// A value free of closures, whose equality is purely structural.
pub open spec fn closure_free(v: LispV) -> bool
    decreases v,
{
    match v {
        LispV::Int(_) => true,
        LispV::Nil => true,
        LispV::True => true,
        LispV::False => true,
        LispV::Cons(a, d) => closure_free(*a) && closure_free(*d),
        LispV::List(s) => closure_free_seq(s),
        LispV::Closure(_, _, _) => false,
    }
}

/// Every element of the sequence is free of closures.
pub open spec fn closure_free_seq(s: Seq<LispV>) -> bool
    decreases s,
{
    if s.len() == 0 {
        true
    } else {
        closure_free(s[0]) && closure_free_seq(s.subrange(1, s.len() as int))
    }
}

/// Structural equality: on closure-free values — in particular on any
/// two independently built cons chains — `EQ`'s equality holds exactly
/// when the values are equal, so identical leaves compare equal and
/// differing leaves compare unequal.
pub proof fn lemma_eq_v_structural(a: LispV, b: LispV)
    requires
        closure_free(a),
        closure_free(b),
    ensures
        eq_v(a, b) <==> a == b,
    decreases a,
{
    match a {
        LispV::Cons(a1, d1) => {
            match b {
                LispV::Cons(a2, d2) => {
                    lemma_eq_v_structural(*a1, *a2);
                    lemma_eq_v_structural(*d1, *d2);
                },
                _ => {},
            }
        },
        LispV::List(x) => {
            match b {
                LispV::List(y) => {
                    lemma_eq_seq_v_structural(x, y);
                    if x == y {
                        assert(eq_v(a, b));
                    }
                },
                _ => {},
            }
        },
        _ => {},
    }
}

/// Structural equality of sequences of closure-free values.
pub proof fn lemma_eq_seq_v_structural(x: Seq<LispV>, y: Seq<LispV>)
    requires
        closure_free_seq(x),
        closure_free_seq(y),
    ensures
        eq_seq_v(x, y) <==> x == y,
    decreases x,
{
    if x.len() == y.len() && x.len() > 0 {
        let xt = x.subrange(1, x.len() as int);
        let yt = y.subrange(1, y.len() as int);
        lemma_eq_v_structural(x[0], y[0]);
        lemma_eq_seq_v_structural(xt, yt);
        if eq_seq_v(x, y) {
            assert(x[0] == y[0]);
            assert(xt == yt);
            assert forall|i: int| 0 <= i < x.len() implies x[i] == y[i] by {
                if i > 0 {
                    assert(xt[i - 1] == x[i]);
                    assert(yt[i - 1] == y[i]);
                }
            }
            assert(x =~= y);
        }
        if x == y {
            assert(xt =~= yt);
        }
    } else if x.len() != y.len() {
        assert(x != y) by {
            if x == y {
                assert(x.len() == y.len());
            }
        }
    } else {
        if x.len() == 0 && y.len() == 0 {
            assert(x =~= y);
        }
    }
}

/// ARGS ordering: packing `n` arguments yields a `List` holding them
/// in exactly their original left-to-right evaluation order.
pub proof fn lemma_args_packs_in_order(st: StateV, info: Info, n: int)
    requires
        0 <= n <= st.stack.len(),
    ensures
        step_sp(st, CodeOPInfoV { info, op: CodeOPV::ARGS(n) }) matches Ok(st2) && {
            &&& st2.stack.len() == st.stack.len() - n + 1
            &&& st2.stack.last() matches LispV::List(packed) && packed.len() == n && forall|
                i: int,
            |
                0 <= i < n ==> packed[i] == st.stack[st.stack.len() - n + i]
        },
{
    let st2 = step_sp(st, CodeOPInfoV { info, op: CodeOPV::ARGS(n) })->Ok_0;
    assert(st2.stack.last() == LispV::List(st.stack.skip(st.stack.len() - n)));
}

} // verus!
