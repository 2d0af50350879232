//! Laws of the value model and of evaluation, proved over their models.
use crate::context::FrameView;
use crate::ffi::Reply;
use crate::semantics::{
    below, sem_block, sem_declarator, sem_decls, sem_expr, sem_literal, sem_stmt, sem_stmts,
    sem_value, Halt, Run, Sig,
};
use crate::syntax::{field_of, named_of, FieldName, NodeKind, SyntaxTree};
use crate::float::{
    float_difference, float_order, float_product, float_quotient, float_sum, int_to_float, Float,
};
use crate::operator::{binary_spec, BinaryOp};
use crate::value::{bool_value, float_number, trunc_rem, Number, Val};
use std::cmp::Ordering;
use vstd::prelude::*;

verus! {

/// Integer division yields the float quotient of the promoted operands; the
/// remainder of two integers is the integer remainder of truncating division,
/// which has the sign of the dividend and is smaller than the divisor in
/// magnitude; a remainder by zero is `Undefined`.
pub proof fn law_integer_division(a: i64, b: i64)
    requires
        b != 0,
    ensures
        binary_spec(BinaryOp::Div, Val::Num(Number::SamInt(a)), Val::Num(Number::SamInt(b)))
            == Ok::<Val, crate::error::ErrorKind>(
            Val::Num(float_number(float_quotient(int_to_float(a), int_to_float(b)))),
        ),
        binary_spec(BinaryOp::Rem, Val::Num(Number::SamInt(a)), Val::Num(Number::SamInt(b)))
            == Ok::<Val, crate::error::ErrorKind>(
            Val::Num(Number::SamInt(trunc_rem(a as int, b as int) as i64)),
        ),
        trunc_rem(a as int, b as int) as i64 as int == trunc_rem(a as int, b as int),
        a >= 0 ==> 0 <= trunc_rem(a as int, b as int),
        a < 0 ==> trunc_rem(a as int, b as int) <= 0,
        -(b as int) < trunc_rem(a as int, b as int) < b as int || (b as int) < trunc_rem(
            a as int,
            b as int,
        ) < -(b as int),
        binary_spec(BinaryOp::Rem, Val::Num(Number::SamInt(a)), Val::Num(Number::SamInt(0)))
            == Ok::<Val, crate::error::ErrorKind>(Val::Undef),
        binary_spec(BinaryOp::Div, Val::Num(Number::SamInt(a)), Val::Num(Number::SamInt(0)))
            == Ok::<Val, crate::error::ErrorKind>(Val::Undef),
{
    let m: int = if b < 0 {
        -(b as int)
    } else {
        b as int
    };
    assert(m > 0);
    if a >= 0 {
        assert(0 <= (a as int) % m < m);
    } else {
        assert(0 <= (-(a as int)) % m < m);
    }
}

/// An integer and a float meet as floats: arithmetic on them yields the float
/// operation on the promoted integer, and they are equal exactly when the
/// promoted integer equals the float.
pub proof fn law_mixed_promotion(a: i64, f: Float)
    ensures
        binary_spec(BinaryOp::Add, Val::Num(Number::SamInt(a)), Val::Num(Number::SamFloat(f)))
            == Ok::<Val, crate::error::ErrorKind>(
            Val::Num(float_number(float_sum(int_to_float(a), f.bits))),
        ),
        binary_spec(BinaryOp::Add, Val::Num(Number::SamFloat(f)), Val::Num(Number::SamInt(a)))
            == Ok::<Val, crate::error::ErrorKind>(
            Val::Num(float_number(float_sum(f.bits, int_to_float(a)))),
        ),
        binary_spec(BinaryOp::Sub, Val::Num(Number::SamInt(a)), Val::Num(Number::SamFloat(f)))
            == Ok::<Val, crate::error::ErrorKind>(
            Val::Num(float_number(float_difference(int_to_float(a), f.bits))),
        ),
        binary_spec(BinaryOp::Mul, Val::Num(Number::SamInt(a)), Val::Num(Number::SamFloat(f)))
            == Ok::<Val, crate::error::ErrorKind>(
            Val::Num(float_number(float_product(int_to_float(a), f.bits))),
        ),
        binary_spec(BinaryOp::Eq, Val::Num(Number::SamInt(a)), Val::Num(Number::SamFloat(f)))
            == Ok::<Val, crate::error::ErrorKind>(
            bool_value(float_order(int_to_float(a), f.bits) == Some(Ordering::Equal)),
        ),
{
}


/// Declarator `c` binds an identifier and has no initializer, or a literal one.
pub open spec fn literal_declarator(t: SyntaxTree, c: int) -> bool {
    &&& 0 <= c < t.nodes.len()
    &&& t.nodes[c].kind == NodeKind::VariableDeclarator
    &&& match field_of(t.nodes[c].fields@, FieldName::Variable) {
        Some(x) => below(t, c, x as int) && t.nodes[x as int].kind == NodeKind::Identifier,
        None => false,
    }
    &&& match field_of(t.nodes[c].fields@, FieldName::Value) {
        None => true,
        Some(e) => below(t, c, e as int) && (t.nodes[e as int].kind == NodeKind::Literal
            || t.nodes[e as int].kind == NodeKind::Number || t.nodes[e as int].kind
            == NodeKind::String) && sem_literal(t, e as int) is Ok,
    }
}

/// Node `d` is a declaration whose declarators all are literal ones.
pub open spec fn literal_declaration(t: SyntaxTree, d: int) -> bool {
    &&& 0 <= d < t.nodes.len()
    &&& t.nodes[d].kind == NodeKind::VariableDeclaration
    &&& forall|k: int|
        0 <= k < named_of(t, t.nodes[d].children@).len() ==> below(
            t,
            d,
            #[trigger] named_of(t, t.nodes[d].children@)[k] as int,
        ) && literal_declarator(t, named_of(t, t.nodes[d].children@)[k] as int)
}

/// The stack `a` differs from `b` at most in its top frame.
pub open spec fn same_below_top(a: Seq<FrameView>, b: Seq<FrameView>) -> bool {
    a.len() == b.len() && forall|j: int| 0 <= j < a.len() - 1 ==> #[trigger] a[j] == b[j]
}

proof fn lemma_literal_declarator(t: SyntaxTree, q: Seq<Reply>, fuel: nat, c: int, s: Seq<FrameView>, n: int)
    requires
        literal_declarator(t, c),
        s.len() > 0,
    ensures
        sem_declarator(t, q, fuel, c, s, n).out is Ok,
        same_below_top(sem_declarator(t, q, fuel, c, s, n).frames, s),
        sem_declarator(t, q, fuel, c, s, n).next == n,
{
    reveal_with_fuel(sem_value, 2);
    reveal_with_fuel(sem_expr, 2);
}

proof fn lemma_literal_decls(t: SyntaxTree, q: Seq<Reply>, fuel: nat, d: int, k: int, s: Seq<FrameView>, n: int)
    requires
        literal_declaration(t, d),
        0 <= k <= named_of(t, t.nodes[d].children@).len(),
        s.len() > 0,
    ensures
        sem_decls(t, q, fuel, d, named_of(t, t.nodes[d].children@), k, s, n).out is Ok,
        same_below_top(sem_decls(t, q, fuel, d, named_of(t, t.nodes[d].children@), k, s, n).frames, s),
        sem_decls(t, q, fuel, d, named_of(t, t.nodes[d].children@), k, s, n).next == n,
    decreases named_of(t, t.nodes[d].children@).len() - k,
{
    let kids = named_of(t, t.nodes[d].children@);
    if k < kids.len() {
        assert(below(t, d, kids[k] as int) && literal_declarator(t, kids[k] as int));
        lemma_literal_declarator(t, q, fuel, kids[k] as int, s, n);
        let r = sem_declarator(t, q, fuel, kids[k] as int, s, n);
        lemma_literal_decls(t, q, fuel, d, k + 1, r.frames, r.next);
    }
}

proof fn lemma_literal_stmts(
    t: SyntaxTree,
    q: Seq<Reply>,
    fuel: nat,
    i: int,
    kids: Seq<usize>,
    k: int,
    s: Seq<FrameView>,
    n: int,
)
    requires
        0 <= i < t.nodes.len(),
        0 <= k <= kids.len(),
        s.len() > 0,
        forall|j: int| 0 <= j < kids.len() ==> below(t, i, #[trigger] kids[j] as int) && literal_declaration(t, kids[j] as int),
    ensures
        sem_stmts(t, q, fuel, i, kids, k, s, n).out == Ok::<Sig, Halt>(Sig::Plain(Val::Undef)),
        same_below_top(sem_stmts(t, q, fuel, i, kids, k, s, n).frames, s),
        sem_stmts(t, q, fuel, i, kids, k, s, n).next == n,
    decreases kids.len() - k,
{
    if k < kids.len() {
        let c = kids[k] as int;
        assert(below(t, i, c) && literal_declaration(t, c));
        lemma_literal_decls(t, q, fuel, c, 0, s, n);
        let r = sem_stmt(t, q, fuel, c, s, n);
        lemma_literal_stmts(t, q, fuel, i, kids, k + 1, r.frames, r.next);
    }
}

/// Declarations in a nested block do not leak out of it: a block whose
/// statements are all declarations with literal initializers (or none)
/// yields `Undefined` and leaves the enclosing scope stack exactly as it was,
/// whatever names it declares, shadowing ones included.
pub proof fn law_block_declarations_isolated(
    t: SyntaxTree,
    q: Seq<Reply>,
    fuel: nat,
    i: int,
    seed: FrameView,
    s: Seq<FrameView>,
    n: int,
)
    requires
        0 <= i < t.nodes.len(),
        t.nodes[i].kind == NodeKind::StatementBlock,
        forall|j: int|
            0 <= j < named_of(t, t.nodes[i].children@).len() ==> below(
                t,
                i,
                #[trigger] named_of(t, t.nodes[i].children@)[j] as int,
            ) && literal_declaration(t, named_of(t, t.nodes[i].children@)[j] as int),
    ensures
        sem_block(t, q, fuel, i, seed, s, n) == (Run::<Sig> {
            out: Ok(Sig::Plain(Val::Undef)),
            frames: s,
            next: n,
        }),
{
    let kids = named_of(t, t.nodes[i].children@);
    lemma_literal_stmts(t, q, fuel, i, kids, 0, s.push(seed), n);
    let r = sem_stmts(t, q, fuel, i, kids, 0, s.push(seed), n);
    assert(r.frames.drop_last() =~= s);
}

} // verus!
