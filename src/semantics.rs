//! The meaning of programs: a big-step semantics over the models of the
//! scope stack and of values, with the replies to outside requests given.
//!
//! Each function takes the tree, the replies, the call depth still allowed,
//! a node, the scope stack and the index of the next unused reply, and gives
//! the outcome together with the stack and reply index after it.
use crate::context::{frame_set, stack_get, stack_set, top_set, FrameView};
use crate::error::{ErrorKind, EvalError};
use crate::ffi::{
    command_text, json_val, manifest_command, shell_object, ForeignReply, ManifestReply, Reply,
    ShellReply,
};
use crate::literal::{number_literal, string_literal};
use crate::operator::{binary_spec, operator_of};
use crate::syntax::{field_of, fields_named, named_of, FieldName, NodeKind, SyntaxTree};
use crate::value::{entries_get, text_of, Number, Val};
use vstd::prelude::*;

verus! {

/// How deeply function calls may nest. Evaluation is a recursion over the
/// tree and over calls; the bound keeps every run finite (a program that
/// recurses without end fails with `CallDepthExceeded`) and keeps the host's
/// own stack within reach.
pub const MAX_CALL_DEPTH: u64 = 150;

/// The model of a statement's result.
pub enum Sig {
    Plain(Val),
    Ret(Val),
}

/// Why a run stopped early: a failure, or the request it needs answered.
pub enum Halt {
    Fail(EvalError),
    Manifest(Seq<char>),
    Foreign(Seq<char>),
    Shell(Seq<char>, Seq<Seq<char>>),
}

/// An outcome with the scope stack and reply index after it.
pub struct Run<T> {
    pub out: Result<T, Halt>,
    pub frames: Seq<FrameView>,
    pub next: int,
}

/// How a whole program ends.
pub enum Ending {
    Finished(Seq<FrameView>),
    Failed(EvalError),
    Needs(Halt),
}

/// The failure of kind `kind` at node `i`.
pub open spec fn fail_h(t: SyntaxTree, i: int, kind: ErrorKind) -> Halt {
    Halt::Fail(EvalError { kind, start: t.nodes[i].start, end: t.nodes[i].end })
}

pub open spec fn failed<T>(t: SyntaxTree, i: int, kind: ErrorKind, s: Seq<FrameView>, n: int) -> Run<T> {
    Run { out: Err(fail_h(t, i, kind)), frames: s, next: n }
}

/// The outcome where a tree breaks its own shape (never for a well-formed tree).
pub open spec fn stuck<T>(s: Seq<FrameView>, n: int) -> Run<T> {
    Run {
        out: Err(Halt::Fail(EvalError { kind: ErrorKind::UnexpectedNode, start: 0, end: 0 })),
        frames: s,
        next: n,
    }
}

pub open spec fn below(t: SyntaxTree, i: int, c: int) -> bool {
    i < c < t.nodes.len()
}

/// The value of literal node `i`, or its failure.
pub open spec fn sem_literal(t: SyntaxTree, i: int) -> Result<Val, Halt> {
    let n = t.nodes[i];
    let j = if n.kind == NodeKind::Literal && n.children.len() > 0 {
        n.children[0] as int
    } else {
        i
    };
    match t.nodes[j].kind {
        NodeKind::Number => match number_literal(t.text(j)) {
            Some(x) => Ok(Val::Num(x)),
            None => Err(fail_h(t, j, ErrorKind::InvalidNumber)),
        },
        NodeKind::String => Ok(Val::Str(string_literal(t, j))),
        _ => Err(fail_h(t, i, ErrorKind::UnexpectedNode)),
    }
}

/// The parameter nodes of lambda node `i`.
pub open spec fn parameter_nodes(t: SyntaxTree, i: int) -> Seq<usize> {
    let under = fields_named(t.nodes[i].fields@, FieldName::Parameters);
    if under.len() == 1 && t.nodes[under[0] as int].kind == NodeKind::FormalParameters {
        named_of(t, t.nodes[under[0] as int].children@)
    } else {
        under
    }
}

/// The argument nodes of call node `i`.
pub open spec fn argument_nodes(t: SyntaxTree, i: int) -> Seq<usize> {
    let under = fields_named(t.nodes[i].fields@, FieldName::Arguments);
    if under.len() == 1 && t.nodes[under[0] as int].kind == NodeKind::Arguments {
        named_of(t, t.nodes[under[0] as int].children@)
    } else {
        under
    }
}

/// The names that identifier nodes `nodes` spell; the first that is not an
/// identifier fails.
pub open spec fn sem_params(t: SyntaxTree, nodes: Seq<usize>) -> Result<Seq<Seq<char>>, Halt>
    decreases nodes.len(),
{
    if nodes.len() == 0 {
        Ok(Seq::empty())
    } else {
        match sem_params(t, nodes.drop_last()) {
            Err(h) => Err(h),
            Ok(ps) => if t.nodes[nodes.last() as int].kind == NodeKind::Identifier {
                Ok(ps.push(t.text(nodes.last() as int)))
            } else {
                Err(fail_h(t, nodes.last() as int, ErrorKind::UnexpectedNode))
            },
        }
    }
}

/// The frame a call starts with.
pub open spec fn bind_view(ps: Seq<Seq<char>>, vs: Seq<Val>) -> FrameView {
    Seq::new(ps.len(), |k: int| (ps[k], vs[k]))
}

pub open spec fn texts(vs: Seq<Val>) -> Seq<Seq<char>> {
    vs.map_values(|v: Val| text_of(v))
}

/// A foreign call at node `i`: asks for the command when no reply is left,
/// else converts the next reply.
pub open spec fn sem_foreign(
    t: SyntaxTree,
    q: Seq<Reply>,
    i: int,
    cmd: Seq<char>,
    vs: Seq<Val>,
    s: Seq<FrameView>,
    n: int,
) -> Run<Val> {
    if !(0 <= n < q.len()) {
        Run { out: Err(Halt::Foreign(command_text(cmd, texts(vs)))), frames: s, next: n }
    } else {
        Run {
            out: match q[n] {
                Reply::Foreign(ForeignReply::Parsed(j)) => Ok(json_val(j)),
                Reply::Foreign(ForeignReply::NotJson) => Err(fail_h(t, i, ErrorKind::ForeignOutput)),
                Reply::Foreign(ForeignReply::SpawnFailed) => Err(fail_h(t, i, ErrorKind::SpawnFailed)),
                _ => Err(fail_h(t, i, ErrorKind::ReplyMismatch)),
            },
            frames: s,
            next: n + 1,
        }
    }
}

/// A shell call of program `name` at node `i`.
pub open spec fn sem_shell(
    t: SyntaxTree,
    q: Seq<Reply>,
    i: int,
    name: Seq<char>,
    vs: Seq<Val>,
    s: Seq<FrameView>,
    n: int,
) -> Run<Val> {
    if !(0 <= n < q.len()) {
        Run { out: Err(Halt::Shell(name, texts(vs))), frames: s, next: n }
    } else {
        Run {
            out: match q[n] {
                Reply::Shell(ShellReply::Finished { stdout, stderr, status }) => Ok(
                    shell_object(stdout@, stderr@, status),
                ),
                Reply::Shell(ShellReply::SpawnFailed) => Err(fail_h(t, i, ErrorKind::SpawnFailed)),
                _ => Err(fail_h(t, i, ErrorKind::ReplyMismatch)),
            },
            frames: s,
            next: n + 1,
        }
    }
}

/// A statement.
pub open spec fn sem_stmt(t: SyntaxTree, q: Seq<Reply>, fuel: nat, i: int, s: Seq<FrameView>, n: int) -> Run<Sig>
    decreases fuel, t.nodes.len() - i, 8int, 0int,
{
    if !(0 <= i < t.nodes.len()) {
        stuck(s, n)
    } else {
        let nd = t.nodes[i];
        let kids = named_of(t, nd.children@);
        match nd.kind {
            NodeKind::ExpressionStatement => if kids.len() == 0 {
                failed(t, i, ErrorKind::UnexpectedNode, s, n)
            } else if !below(t, i, kids[0] as int) {
                stuck(s, n)
            } else {
                sem_expr(t, q, fuel, kids[0] as int, s, n)
            },
            NodeKind::VariableDeclaration => {
                let r = sem_decls(t, q, fuel, i, kids, 0, s, n);
                Run {
                    out: match r.out {
                        Ok(_) => Ok(Sig::Plain(Val::Undef)),
                        Err(h) => Err(h),
                    },
                    frames: r.frames,
                    next: r.next,
                }
            },
            NodeKind::Assignment => {
                let r = sem_assign(t, q, fuel, i, s, n);
                Run {
                    out: match r.out {
                        Ok(v) => Ok(Sig::Plain(v)),
                        Err(h) => Err(h),
                    },
                    frames: r.frames,
                    next: r.next,
                }
            },
            NodeKind::ReturnStatement => {
                let target = match field_of(nd.fields@, FieldName::Value) {
                    Some(c) => Some(c),
                    None => if kids.len() > 0 {
                        Some(kids[0])
                    } else {
                        None
                    },
                };
                match target {
                    Some(c) => if !below(t, i, c as int) {
                        stuck(s, n)
                    } else {
                        let r = sem_value(t, q, fuel, c as int, s, n);
                        Run {
                            out: match r.out {
                                Ok(v) => Ok(Sig::Ret(v)),
                                Err(h) => Err(h),
                            },
                            frames: r.frames,
                            next: r.next,
                        }
                    },
                    None => Run { out: Ok(Sig::Ret(Val::Undef)), frames: s, next: n },
                }
            },
            NodeKind::StatementBlock => sem_block(t, q, fuel, i, Seq::empty(), s, n),
            _ => failed(t, i, ErrorKind::UnexpectedNode, s, n),
        }
    }
}

/// A statement block run in a new frame that starts as `seed`: the first
/// return among its statements, else `Undefined`; the frame is gone after.
pub open spec fn sem_block(
    t: SyntaxTree,
    q: Seq<Reply>,
    fuel: nat,
    i: int,
    seed: FrameView,
    s: Seq<FrameView>,
    n: int,
) -> Run<Sig>
    decreases fuel, t.nodes.len() - i, 7int, 0int,
{
    if !(0 <= i < t.nodes.len()) {
        stuck(s, n)
    } else if t.nodes[i].kind != NodeKind::StatementBlock {
        failed(t, i, ErrorKind::UnexpectedNode, s, n)
    } else {
        let r = sem_stmts(t, q, fuel, i, named_of(t, t.nodes[i].children@), 0, s.push(seed), n);
        Run {
            out: match r.out {
                Ok(Sig::Plain(_)) => Ok(Sig::Plain(Val::Undef)),
                Ok(Sig::Ret(v)) => Ok(Sig::Ret(v)),
                Err(h) => Err(h),
            },
            frames: r.frames.drop_last(),
            next: r.next,
        }
    }
}

/// The statements `kids[k..]` of block `i`, in order, up to the first
/// return or failure.
pub open spec fn sem_stmts(
    t: SyntaxTree,
    q: Seq<Reply>,
    fuel: nat,
    i: int,
    kids: Seq<usize>,
    k: int,
    s: Seq<FrameView>,
    n: int,
) -> Run<Sig>
    decreases fuel, t.nodes.len() - i, 6int, kids.len() - k,
{
    if !(0 <= i < t.nodes.len()) || !(0 <= k <= kids.len()) {
        stuck(s, n)
    } else if k == kids.len() {
        Run { out: Ok(Sig::Plain(Val::Undef)), frames: s, next: n }
    } else if !below(t, i, kids[k] as int) {
        stuck(s, n)
    } else {
        let r = sem_stmt(t, q, fuel, kids[k] as int, s, n);
        match r.out {
            Ok(Sig::Plain(_)) => sem_stmts(t, q, fuel, i, kids, k + 1, r.frames, r.next),
            _ => r,
        }
    }
}

/// The declarators `kids[k..]` of declaration `i`, in order.
pub open spec fn sem_decls(
    t: SyntaxTree,
    q: Seq<Reply>,
    fuel: nat,
    i: int,
    kids: Seq<usize>,
    k: int,
    s: Seq<FrameView>,
    n: int,
) -> Run<()>
    decreases fuel, t.nodes.len() - i, 4int, kids.len() - k,
{
    if !(0 <= i < t.nodes.len()) || !(0 <= k <= kids.len()) {
        stuck(s, n)
    } else if k == kids.len() {
        Run { out: Ok(()), frames: s, next: n }
    } else if !below(t, i, kids[k] as int) {
        stuck(s, n)
    } else {
        let r = sem_declarator(t, q, fuel, kids[k] as int, s, n);
        match r.out {
            Ok(_) => sem_decls(t, q, fuel, i, kids, k + 1, r.frames, r.next),
            Err(_) => r,
        }
    }
}

/// A declarator: its name bound to `Undefined` in the top frame, then to
/// its initializer's value, evaluated over that stack.
pub open spec fn sem_declarator(t: SyntaxTree, q: Seq<Reply>, fuel: nat, i: int, s: Seq<FrameView>, n: int) -> Run<()>
    decreases fuel, t.nodes.len() - i, 4int, 0int,
{
    if !(0 <= i < t.nodes.len()) {
        stuck(s, n)
    } else if t.nodes[i].kind != NodeKind::VariableDeclarator {
        failed(t, i, ErrorKind::UnexpectedNode, s, n)
    } else {
        match field_of(t.nodes[i].fields@, FieldName::Variable) {
            None => failed(t, i, ErrorKind::UnexpectedNode, s, n),
            Some(var) => if !below(t, i, var as int) {
                stuck(s, n)
            } else if t.nodes[var as int].kind != NodeKind::Identifier {
                failed(t, var as int, ErrorKind::UnexpectedNode, s, n)
            } else {
                let name = t.text(var as int);
                let s1 = top_set(s, name, Val::Undef);
                match field_of(t.nodes[i].fields@, FieldName::Value) {
                    None => Run { out: Ok(()), frames: s1, next: n },
                    Some(c) => if !below(t, i, c as int) {
                        stuck(s1, n)
                    } else {
                        let r = sem_value(t, q, fuel, c as int, s1, n);
                        match r.out {
                            Ok(v) => Run { out: Ok(()), frames: top_set(r.frames, name, v), next: r.next },
                            Err(h) => Run { out: Err(h), frames: r.frames, next: r.next },
                        }
                    },
                }
            },
        }
    }
}

/// An assignment: the name rebound where it resolves, after the right-hand
/// side is evaluated; a name no frame binds fails.
pub open spec fn sem_assign(t: SyntaxTree, q: Seq<Reply>, fuel: nat, i: int, s: Seq<FrameView>, n: int) -> Run<Val>
    decreases fuel, t.nodes.len() - i, 4int, 0int,
{
    if !(0 <= i < t.nodes.len()) {
        stuck(s, n)
    } else {
        match (field_of(t.nodes[i].fields@, FieldName::Lhs), field_of(t.nodes[i].fields@, FieldName::Rhs)) {
            (Some(l), Some(e)) => if !below(t, i, l as int) || !below(t, i, e as int) {
                stuck(s, n)
            } else if t.nodes[l as int].kind != NodeKind::Identifier {
                failed(t, l as int, ErrorKind::UnexpectedNode, s, n)
            } else {
                let name = t.text(l as int);
                let r = sem_value(t, q, fuel, e as int, s, n);
                match r.out {
                    Err(h) => r,
                    Ok(v) => if stack_get(r.frames, name) is Some {
                        Run { out: Ok(v), frames: stack_set(r.frames, name, v), next: r.next }
                    } else {
                        failed(t, i, ErrorKind::UndefinedAssignment, r.frames, r.next)
                    },
                }
            },
            _ => failed(t, i, ErrorKind::UnexpectedNode, s, n),
        }
    }
}

/// An expression that must give a plain value.
pub open spec fn sem_value(t: SyntaxTree, q: Seq<Reply>, fuel: nat, i: int, s: Seq<FrameView>, n: int) -> Run<Val>
    decreases fuel, t.nodes.len() - i, 5int, 0int,
{
    let r = sem_expr(t, q, fuel, i, s, n);
    Run {
        out: match r.out {
            Ok(Sig::Plain(v)) => Ok(v),
            Ok(Sig::Ret(_)) => Err(fail_h(t, i, ErrorKind::ReturnInExpression)),
            Err(h) => Err(h),
        },
        frames: r.frames,
        next: r.next,
    }
}

pub open spec fn plain(r: Run<Val>) -> Run<Sig> {
    Run {
        out: match r.out {
            Ok(v) => Ok(Sig::Plain(v)),
            Err(h) => Err(h),
        },
        frames: r.frames,
        next: r.next,
    }
}

/// An expression.
pub open spec fn sem_expr(t: SyntaxTree, q: Seq<Reply>, fuel: nat, i: int, s: Seq<FrameView>, n: int) -> Run<Sig>
    decreases fuel, t.nodes.len() - i, 4int, 0int,
{
    if !(0 <= i < t.nodes.len()) {
        stuck(s, n)
    } else {
        let nd = t.nodes[i];
        match nd.kind {
            NodeKind::Literal | NodeKind::Number | NodeKind::String => Run {
                out: match sem_literal(t, i) {
                    Ok(v) => Ok(Sig::Plain(v)),
                    Err(h) => Err(h),
                },
                frames: s,
                next: n,
            },
            NodeKind::Identifier => Run {
                out: match stack_get(s, t.text(i)) {
                    Some(v) => Ok(Sig::Plain(v)),
                    None => Err(fail_h(t, i, ErrorKind::UnboundVariable)),
                },
                frames: s,
                next: n,
            },
            NodeKind::BinaryExpression => plain(sem_binary(t, q, fuel, i, s, n)),
            NodeKind::NestedIdentifier => match (
                field_of(nd.fields@, FieldName::Parent),
                field_of(nd.fields@, FieldName::Name),
            ) {
                (Some(p), Some(k)) => if !below(t, i, p as int) || !below(t, i, k as int) {
                    stuck(s, n)
                } else {
                    let r = sem_value(t, q, fuel, p as int, s, n);
                    Run {
                        out: match r.out {
                            Err(h) => Err(h),
                            Ok(Val::Obj(e)) => match entries_get(e, t.text(k as int)) {
                                Some(x) => Ok(Sig::Plain(x)),
                                None => Err(fail_h(t, i, ErrorKind::UnknownAttribute)),
                            },
                            Ok(_) => Err(fail_h(t, i, ErrorKind::NotAttributable)),
                        },
                        frames: r.frames,
                        next: r.next,
                    }
                },
                _ => failed(t, i, ErrorKind::UnexpectedNode, s, n),
            },
            NodeKind::ArrayExpression => {
                let r = sem_list(t, q, fuel, i, named_of(t, nd.children@), 0, s, n, Seq::empty());
                Run {
                    out: match r.out {
                        Ok(vs) => Ok(Sig::Plain(Val::Arr(vs))),
                        Err(h) => Err(h),
                    },
                    frames: r.frames,
                    next: r.next,
                }
            },
            NodeKind::LambdaExpression => match field_of(nd.fields@, FieldName::Body) {
                None => failed(t, i, ErrorKind::UnexpectedNode, s, n),
                Some(b) => if !below(t, i, b as int) {
                    stuck(s, n)
                } else {
                    Run {
                        out: match sem_params(t, parameter_nodes(t, i)) {
                            Ok(ps) => Ok(
                                Sig::Plain(
                                    Val::Func(
                                        t.nodes[b as int].start as nat,
                                        t.nodes[b as int].end as nat,
                                        ps,
                                    ),
                                ),
                            ),
                            Err(h) => Err(h),
                        },
                        frames: s,
                        next: n,
                    }
                },
            },
            NodeKind::CallExpression => plain(sem_call(t, q, fuel, i, s, n)),
            NodeKind::IfExpression => sem_if(t, q, fuel, i, s, n),
            _ => failed(t, i, ErrorKind::UnexpectedNode, s, n),
        }
    }
}

/// A binary expression: left operand, right operand, then the operator.
pub open spec fn sem_binary(t: SyntaxTree, q: Seq<Reply>, fuel: nat, i: int, s: Seq<FrameView>, n: int) -> Run<Val>
    decreases fuel, t.nodes.len() - i, 3int, 0int,
{
    if !(0 <= i < t.nodes.len()) {
        stuck(s, n)
    } else {
        let nd = t.nodes[i];
        match (field_of(nd.fields@, FieldName::Left), field_of(nd.fields@, FieldName::Right)) {
            (Some(l), Some(rt)) => if !below(t, i, l as int) || !below(t, i, rt as int) {
                stuck(s, n)
            } else {
                let a = sem_value(t, q, fuel, l as int, s, n);
                match a.out {
                    Err(h) => a,
                    Ok(x) => {
                        let b = sem_value(t, q, fuel, rt as int, a.frames, a.next);
                        match b.out {
                            Err(h) => b,
                            Ok(y) => if nd.children.len() <= 1 {
                                failed(t, i, ErrorKind::UnexpectedNode, b.frames, b.next)
                            } else {
                                match operator_of(t.text(nd.children[1] as int)) {
                                    None => failed(t, i, ErrorKind::UnknownOperator, b.frames, b.next),
                                    Some(op) => match binary_spec(op, x, y) {
                                        Ok(v) => Run { out: Ok(v), frames: b.frames, next: b.next },
                                        Err(kind) => failed(t, i, kind, b.frames, b.next),
                                    },
                                }
                            },
                        }
                    },
                }
            },
            _ => failed(t, i, ErrorKind::UnexpectedNode, s, n),
        }
    }
}

/// An `if`: an integer condition; nonzero runs the consequence, zero the
/// `else` arm (another `if` or a block), or gives `Undefined` without one.
pub open spec fn sem_if(t: SyntaxTree, q: Seq<Reply>, fuel: nat, i: int, s: Seq<FrameView>, n: int) -> Run<Sig>
    decreases fuel, t.nodes.len() - i, 3int, 0int,
{
    if !(0 <= i < t.nodes.len()) {
        stuck(s, n)
    } else {
        let nd = t.nodes[i];
        match field_of(nd.fields@, FieldName::Condition) {
            None => failed(t, i, ErrorKind::UnexpectedNode, s, n),
            Some(c) => if !below(t, i, c as int) {
                stuck(s, n)
            } else {
                let r = sem_value(t, q, fuel, c as int, s, n);
                match r.out {
                    Err(h) => Run { out: Err(h), frames: r.frames, next: r.next },
                    Ok(Val::Num(Number::SamInt(x))) => if x != 0 {
                        match field_of(nd.fields@, FieldName::Consequence) {
                            None => failed(t, i, ErrorKind::UnexpectedNode, r.frames, r.next),
                            Some(b) => if !below(t, i, b as int) {
                                stuck(r.frames, r.next)
                            } else {
                                sem_block(t, q, fuel, b as int, Seq::empty(), r.frames, r.next)
                            },
                        }
                    } else {
                        match field_of(nd.fields@, FieldName::Else) {
                            None => Run { out: Ok(Sig::Plain(Val::Undef)), frames: r.frames, next: r.next },
                            Some(e) => if !below(t, i, e as int) {
                                stuck(r.frames, r.next)
                            } else if t.nodes[e as int].kind == NodeKind::IfExpression {
                                sem_if(t, q, fuel, e as int, r.frames, r.next)
                            } else {
                                sem_block(t, q, fuel, e as int, Seq::empty(), r.frames, r.next)
                            },
                        }
                    },
                    Ok(_) => failed(t, c as int, ErrorKind::ConditionNotInt, r.frames, r.next),
                }
            },
        }
    }
}

/// The expressions `nodes[k..]`, left to right, their values appended to
/// `acc`.
pub open spec fn sem_list(
    t: SyntaxTree,
    q: Seq<Reply>,
    fuel: nat,
    i: int,
    nodes: Seq<usize>,
    k: int,
    s: Seq<FrameView>,
    n: int,
    acc: Seq<Val>,
) -> Run<Seq<Val>>
    decreases fuel, t.nodes.len() - i, 1int, nodes.len() - k,
{
    if !(0 <= i < t.nodes.len()) || !(0 <= k <= nodes.len()) {
        stuck(s, n)
    } else if k == nodes.len() {
        Run { out: Ok(acc), frames: s, next: n }
    } else if !below(t, i, nodes[k] as int) {
        stuck(s, n)
    } else {
        let r = sem_value(t, q, fuel, nodes[k] as int, s, n);
        match r.out {
            Ok(v) => sem_list(t, q, fuel, i, nodes, k + 1, r.frames, r.next, acc.push(v)),
            Err(h) => Run { out: Err(h), frames: r.frames, next: r.next },
        }
    }
}

/// A call of the function with body range `st..en` and parameters `ps` on
/// values `vs`: the arity must match; the body runs in a frame binding each
/// parameter; its return value, or `Undefined`, is the result.
pub open spec fn sem_apply(
    t: SyntaxTree,
    q: Seq<Reply>,
    fuel: nat,
    i: int,
    st: nat,
    en: nat,
    ps: Seq<Seq<char>>,
    vs: Seq<Val>,
    s: Seq<FrameView>,
    n: int,
) -> Run<Val>
    decreases fuel, t.nodes.len() - i, 2int, 0int,
{
    if vs.len() != ps.len() {
        failed(t, i, ErrorKind::ArityMismatch, s, n)
    } else if fuel == 0 {
        failed(t, i, ErrorKind::CallDepthExceeded, s, n)
    } else {
        match t.find_from(st as usize, en as usize, NodeKind::StatementBlock, 0) {
            None => failed(t, i, ErrorKind::UnexpectedNode, s, n),
            Some(b) => {
                let r = sem_block(t, q, (fuel - 1) as nat, b, bind_view(ps, vs), s, n);
                Run {
                    out: match r.out {
                        Ok(Sig::Ret(v)) => Ok(v),
                        Ok(Sig::Plain(v)) => Ok(v),
                        Err(h) => Err(h),
                    },
                    frames: r.frames,
                    next: r.next,
                }
            },
        }
    }
}

/// A call: a user function when the callee is one; for a bare name that no
/// frame binds to a function, the foreign function the global frame binds
/// it to, or else the program of that name.
pub open spec fn sem_call(t: SyntaxTree, q: Seq<Reply>, fuel: nat, i: int, s: Seq<FrameView>, n: int) -> Run<Val>
    decreases fuel, t.nodes.len() - i, 3int, 0int,
{
    if !(0 <= i < t.nodes.len()) {
        stuck(s, n)
    } else {
        match field_of(t.nodes[i].fields@, FieldName::Function) {
            None => failed(t, i, ErrorKind::UnexpectedNode, s, n),
            Some(c) => if !below(t, i, c as int) {
                stuck(s, n)
            } else {
                let nodes = argument_nodes(t, i);
                if t.nodes[c as int].kind == NodeKind::Identifier {
                    let name = t.text(c as int);
                    let a = sem_list(t, q, fuel, i, nodes, 0, s, n, Seq::empty());
                    match a.out {
                        Err(h) => Run { out: Err(h), frames: a.frames, next: a.next },
                        Ok(vs) => match stack_get(s, name) {
                            Some(Val::Func(st, en, ps)) => sem_apply(t, q, fuel, i, st, en, ps, vs, a.frames, a.next),
                            _ => match entries_get(a.frames[0], name) {
                                Some(Val::Foreign(cmd)) => sem_foreign(t, q, i, cmd, vs, a.frames, a.next),
                                _ => sem_shell(t, q, i, name, vs, a.frames, a.next),
                            },
                        },
                    }
                } else {
                    let r = sem_value(t, q, fuel, c as int, s, n);
                    match r.out {
                        Err(h) => r,
                        Ok(target) => {
                            let a = sem_list(t, q, fuel, i, nodes, 0, r.frames, r.next, Seq::empty());
                            match a.out {
                                Err(h) => Run { out: Err(h), frames: a.frames, next: a.next },
                                Ok(vs) => match target {
                                    Val::Func(st, en, ps) => sem_apply(t, q, fuel, i, st, en, ps, vs, a.frames, a.next),
                                    Val::Foreign(cmd) => sem_foreign(t, q, i, cmd, vs, a.frames, a.next),
                                    _ => failed(t, i, ErrorKind::NotCallable, a.frames, a.next),
                                },
                            }
                        },
                    }
                }
            },
        }
    }
}

/// The interface declarations `kids[k..]`: each reads its manifest and binds
/// its name in the global frame to the command the manifest gives.
pub open spec fn sem_interfaces(
    t: SyntaxTree,
    q: Seq<Reply>,
    kids: Seq<usize>,
    k: int,
    s: Seq<FrameView>,
    n: int,
) -> Run<()>
    decreases kids.len() - k,
{
    if !(0 <= k <= kids.len()) {
        stuck(s, n)
    } else if k == kids.len() {
        Run { out: Ok(()), frames: s, next: n }
    } else {
        let c = kids[k] as int;
        if !(0 <= c < t.nodes.len()) {
            stuck(s, n)
        } else if t.nodes[c].kind != NodeKind::Interface {
            failed(t, c, ErrorKind::UnexpectedNode, s, n)
        } else {
            match (field_of(t.nodes[c].fields@, FieldName::Path), field_of(t.nodes[c].fields@, FieldName::Module)) {
                (Some(p), Some(m)) => if !below(t, c, p as int) || !below(t, c, m as int) {
                    stuck(s, n)
                } else {
                    let path: Result<Seq<char>, Halt> = match t.nodes[p as int].kind {
                        NodeKind::String | NodeKind::Literal => match sem_literal(t, p as int) {
                            Ok(Val::Str(x)) => Ok(x),
                            Ok(_) => Err(fail_h(t, p as int, ErrorKind::UnexpectedNode)),
                            Err(h) => Err(h),
                        },
                        _ => Ok(t.text(p as int)),
                    };
                    match path {
                        Err(h) => Run { out: Err(h), frames: s, next: n },
                        Ok(pt) => if t.nodes[m as int].kind != NodeKind::Identifier {
                            failed(t, m as int, ErrorKind::UnexpectedNode, s, n)
                        } else if !(0 <= n < q.len()) {
                            Run { out: Err(Halt::Manifest(pt)), frames: s, next: n }
                        } else {
                            let name = t.text(m as int);
                            match q[n] {
                                Reply::Manifest(ManifestReply::Unreadable) => failed(t, c, ErrorKind::ManifestUnreadable, s, n + 1),
                                Reply::Manifest(ManifestReply::Invalid) => failed(t, c, ErrorKind::ManifestInvalid, s, n + 1),
                                Reply::Manifest(ManifestReply::Parsed(j)) => match manifest_command(j, name) {
                                    Some(cmd) => sem_interfaces(t, q, kids, k + 1, s.update(0, frame_set(s[0], name, Val::Foreign(cmd))), n + 1),
                                    None => failed(t, c, ErrorKind::InterfaceEntry, s, n + 1),
                                },
                                _ => failed(t, c, ErrorKind::ReplyMismatch, s, n + 1),
                            }
                        },
                    }
                },
                _ => failed(t, c, ErrorKind::UnexpectedNode, s, n),
            }
        }
    }
}

pub open spec fn ending_of_halt(h: Halt) -> Ending {
    match h {
        Halt::Fail(e) => Ending::Failed(e),
        _ => Ending::Needs(h),
    }
}

/// The top-level statements `kids[k..]`; a return among them fails.
pub open spec fn sem_top(t: SyntaxTree, q: Seq<Reply>, kids: Seq<usize>, k: int, s: Seq<FrameView>, n: int) -> Ending
    decreases kids.len() - k,
{
    if !(0 <= k <= kids.len()) {
        Ending::Failed(EvalError { kind: ErrorKind::UnexpectedNode, start: 0, end: 0 })
    } else if k == kids.len() {
        Ending::Finished(s)
    } else {
        let c = kids[k] as int;
        let r = sem_stmt(t, q, MAX_CALL_DEPTH as nat, c, s, n);
        match r.out {
            Ok(Sig::Plain(_)) => sem_top(t, q, kids, k + 1, r.frames, r.next),
            Ok(Sig::Ret(_)) => Ending::Failed(
                EvalError { kind: ErrorKind::ReturnOutsideFunction, start: t.nodes[c].start, end: t.nodes[c].end },
            ),
            Err(h) => ending_of_halt(h),
        }
    }
}

/// A whole program: it starts with one empty global frame; a leading
/// `interfaces` block registers its foreign functions first; then the
/// statements run in order.
pub open spec fn sem_program(t: SyntaxTree, q: Seq<Reply>) -> Ending {
    if !t.wf() || t.nodes.len() == 0 {
        Ending::Failed(EvalError { kind: ErrorKind::UnexpectedNode, start: 0, end: 0 })
    } else if t.nodes[0].kind != NodeKind::SourceFile {
        Ending::Failed(EvalError { kind: ErrorKind::UnexpectedNode, start: t.nodes[0].start, end: t.nodes[0].end })
    } else {
        let kids = named_of(t, t.nodes[0].children@);
        let s0 = seq![Seq::<(Seq<char>, Val)>::empty()];
        if kids.len() > 0 && t.nodes[kids[0] as int].kind == NodeKind::Interfaces {
            let r = sem_interfaces(t, q, named_of(t, t.nodes[kids[0] as int].children@), 0, s0, 0);
            match r.out {
                Err(h) => ending_of_halt(h),
                Ok(_) => sem_top(t, q, kids, 1, r.frames, r.next),
            }
        } else {
            sem_top(t, q, kids, 0, s0, 0)
        }
    }
}

} // verus!

verus! {

/// One step of a block: the statement at `k`, then the rest unless it
/// returned or failed.
pub proof fn lemma_stmts_step(t: SyntaxTree, q: Seq<Reply>, fuel: nat, i: int, kids: Seq<usize>, k: int, s: Seq<FrameView>, n: int)
    requires
        0 <= i < t.nodes.len(),
        0 <= k < kids.len(),
        below(t, i, kids[k] as int),
    ensures
        sem_stmts(t, q, fuel, i, kids, k, s, n) == ({
            let r = sem_stmt(t, q, fuel, kids[k] as int, s, n);
            match r.out {
                Ok(Sig::Plain(_)) => sem_stmts(t, q, fuel, i, kids, k + 1, r.frames, r.next),
                _ => r,
            }
        }),
{
}

/// One step of a declaration.
pub proof fn lemma_decls_step(t: SyntaxTree, q: Seq<Reply>, fuel: nat, i: int, kids: Seq<usize>, k: int, s: Seq<FrameView>, n: int)
    requires
        0 <= i < t.nodes.len(),
        0 <= k < kids.len(),
        below(t, i, kids[k] as int),
    ensures
        sem_decls(t, q, fuel, i, kids, k, s, n) == ({
            let r = sem_declarator(t, q, fuel, kids[k] as int, s, n);
            match r.out {
                Ok(_) => sem_decls(t, q, fuel, i, kids, k + 1, r.frames, r.next),
                Err(_) => r,
            }
        }),
{
}

/// One step of a list of expressions.
pub proof fn lemma_list_step(t: SyntaxTree, q: Seq<Reply>, fuel: nat, i: int, nodes: Seq<usize>, k: int, s: Seq<FrameView>, n: int, acc: Seq<Val>)
    requires
        0 <= i < t.nodes.len(),
        0 <= k < nodes.len(),
        below(t, i, nodes[k] as int),
    ensures
        sem_list(t, q, fuel, i, nodes, k, s, n, acc) == ({
            let r = sem_value(t, q, fuel, nodes[k] as int, s, n);
            match r.out {
                Ok(v) => sem_list(t, q, fuel, i, nodes, k + 1, r.frames, r.next, acc.push(v)),
                Err(h) => Run { out: Err(h), frames: r.frames, next: r.next },
            }
        }),
{
}

/// One step of the top-level statements.
pub proof fn lemma_top_step(t: SyntaxTree, q: Seq<Reply>, kids: Seq<usize>, k: int, s: Seq<FrameView>, n: int)
    requires
        0 <= k < kids.len(),
    ensures
        sem_top(t, q, kids, k, s, n) == ({
            let c = kids[k] as int;
            let r = sem_stmt(t, q, MAX_CALL_DEPTH as nat, c, s, n);
            match r.out {
                Ok(Sig::Plain(_)) => sem_top(t, q, kids, k + 1, r.frames, r.next),
                Ok(Sig::Ret(_)) => Ending::Failed(
                    EvalError { kind: ErrorKind::ReturnOutsideFunction, start: t.nodes[c].start, end: t.nodes[c].end },
                ),
                Err(h) => ending_of_halt(h),
            }
        }),
{
}

} // verus!
