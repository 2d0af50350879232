//! The evaluator: walks the syntax tree over a scope stack.
//!
//! Statements yield a `Signal`: a plain value that falls through, or a
//! `Return` that unwinds to the nearest call. Work outside the process
//! (reading a manifest, running a command) is not done here: evaluation is
//! given the replies gathered so far, consumes them in order, and stops with
//! `Outcome::Needs` when it needs one more. Evaluating again with that reply
//! appended goes one step further, and so on.
//!
//! Each function is proved to compute exactly what its counterpart in
//! `semantics` gives: the same outcome, scope stack and reply index.
use crate::context::{Context, SymbolTable};
use crate::error::{ErrorKind, EvalError};
use crate::ffi::{ForeignReply, Reply, Request, Shell, ShellReply, FFI};
use crate::literal::{decode_string, parse_number};
use crate::operator::{apply_binary, BinaryOp};
pub use crate::semantics::MAX_CALL_DEPTH;
use crate::semantics::{
    argument_nodes, bind_view, fail_h, parameter_nodes, sem_apply, sem_assign, sem_binary,
    sem_block, sem_call, sem_declarator, sem_decls, sem_expr, sem_foreign, sem_if,
    sem_interfaces, sem_list, sem_literal, sem_params, sem_program, sem_shell, sem_stmt,
    sem_stmts, sem_top, sem_value, Ending, Halt, Run, Sig, lemma_stmts_step, lemma_decls_step,
    lemma_list_step, lemma_top_step,
};
use crate::syntax::{named_of, FieldName, NodeKind, SyntaxTree};
use crate::value::{entries_view, strings_view, ForeignFunction, Function, Number, Val, Value};
use vstd::prelude::*;

verus! {

/// The result of a statement: a value that falls through, or a return.
#[derive(Debug)]
pub enum Signal {
    Plain(Value),
    Return(Value),
}

/// Why evaluation stopped before it finished.
#[derive(Debug)]
pub enum Stop {
    Fail(EvalError),
    Needs(Request),
}

/// The replies to requests, in the order the requests are made, and how
/// many of them this evaluation has used.
pub struct Replies<'a> {
    pub items: &'a Vec<Reply>,
    pub next: usize,
}

/// How a whole evaluation ended.
#[derive(Debug)]
pub enum Outcome {
    /// The program ran to its end; the final scope stack.
    Finished(Context),
    Failed(EvalError),
    /// The program needs one more reply.
    Needs(Request),
}

pub open spec fn halt_of(s: Stop) -> Halt {
    match s {
        Stop::Fail(e) => Halt::Fail(e),
        Stop::Needs(Request::ReadManifest { path }) => Halt::Manifest(path@),
        Stop::Needs(Request::RunForeign { command }) => Halt::Foreign(command@),
        Stop::Needs(Request::RunShell { program, args }) => Halt::Shell(program@, strings_view(args@)),
    }
}

pub open spec fn vals(v: Seq<Value>) -> Seq<Val> {
    v.map_values(|x: Value| x@)
}

pub open spec fn view_val(r: Result<Value, Stop>) -> Result<Val, Halt> {
    match r {
        Ok(v) => Ok(v@),
        Err(e) => Err(halt_of(e)),
    }
}

pub open spec fn view_vals(r: Result<Vec<Value>, Stop>) -> Result<Seq<Val>, Halt> {
    match r {
        Ok(v) => Ok(vals(v@)),
        Err(e) => Err(halt_of(e)),
    }
}

pub open spec fn view_sig(r: Result<Signal, Stop>) -> Result<Sig, Halt> {
    match r {
        Ok(Signal::Plain(v)) => Ok(Sig::Plain(v@)),
        Ok(Signal::Return(v)) => Ok(Sig::Ret(v@)),
        Err(e) => Err(halt_of(e)),
    }
}

pub open spec fn view_unit(r: Result<(), Stop>) -> Result<(), Halt> {
    match r {
        Ok(_) => Ok(()),
        Err(e) => Err(halt_of(e)),
    }
}

/// What a finished evaluation is, as a model.
pub open spec fn ending_of(o: Outcome) -> Ending {
    match o {
        Outcome::Finished(c) => Ending::Finished(c@),
        Outcome::Failed(e) => Ending::Failed(e),
        Outcome::Needs(q) => Ending::Needs(halt_of(Stop::Needs(q))),
    }
}

fn fail_at(t: &SyntaxTree, i: usize, kind: ErrorKind) -> (r: Stop)
    requires
        i < t.nodes.len(),
    ensures
        halt_of(r) == fail_h(*t, i as int, kind),
        r is Fail,
{
    Stop::Fail(EvalError::new(kind, t.nodes[i].start, t.nodes[i].end))
}

/// Reads literal node `i`.
pub fn evaluate_literal(t: &SyntaxTree, i: usize) -> (r: Result<Value, Stop>)
    requires
        t.wf(),
        i < t.nodes.len(),
    ensures
        view_val(r) == sem_literal(*t, i as int),
{
    assert(t.node_wf(i as int));
    let j = if t.nodes[i].kind == NodeKind::Literal && t.nodes[i].children.len() > 0 {
        t.nodes[i].children[0]
    } else {
        i
    };
    match t.nodes[j].kind {
        NodeKind::Number => match parse_number(&t.node_chars(j)) {
            Some(x) => Ok(Value::SamNumber(x)),
            None => Err(fail_at(t, j, ErrorKind::InvalidNumber)),
        },
        NodeKind::String => Ok(Value::SamString(decode_string(t, j))),
        _ => Err(fail_at(t, i, ErrorKind::UnexpectedNode)),
    }
}
/// The name an identifier node spells.
fn identifier_name(t: &SyntaxTree, i: usize) -> (r: Result<String, Stop>)
    requires
        t.wf(),
        i < t.nodes.len(),
    ensures
        t.nodes[i as int].kind == NodeKind::Identifier ==> (r matches Ok(s) && s@ == t.text(i as int)),
        t.nodes[i as int].kind != NodeKind::Identifier ==> (r matches Err(e) && halt_of(e) == fail_h(
            *t,
            i as int,
            ErrorKind::UnexpectedNode,
        )),
{
    if t.nodes[i].kind == NodeKind::Identifier {
        Ok(t.node_text(i))
    } else {
        Err(fail_at(t, i, ErrorKind::UnexpectedNode))
    }
}
/// The frame a call starts with: each parameter bound to its argument.
pub fn bind_arguments(params: &Vec<String>, args: &Vec<Value>) -> (r: SymbolTable)
    requires
        params.len() == args.len(),
    ensures
        r.len() == params.len(),
        forall|k: int| 0 <= k < r.len() ==> (#[trigger] r[k]).0@ == params[k]@ && r[k].1@ == args[k]@,
        entries_view(r@) == bind_view(strings_view(params@), vals(args@)),
{
    let mut frame: SymbolTable = Vec::new();
    let mut k: usize = 0;
    while k < params.len()
        invariant
            k <= params.len(),
            params.len() == args.len(),
            frame.len() == k,
            forall|j: int|
                0 <= j < k ==> (#[trigger] frame[j]).0@ == params[j]@ && frame[j].1@ == args[j]@,
        decreases params.len() - k,
    {
        frame.push((params[k].clone(), args[k].deep_copy()));
        k += 1;
    }
    assert(entries_view(frame@) =~= bind_view(strings_view(params@), vals(args@)));
    frame
}

/// Takes the next reply, or asks for it.
fn next_reply(io: &mut Replies<'_>, request: Request) -> (r: Result<usize, Stop>)
    ensures
        match r {
            Ok(k) => k == old(io).next && k < old(io).items.len() && final(io).next == k + 1,
            Err(Stop::Needs(q)) => q == request && final(io).next == old(io).next,
            Err(Stop::Fail(_)) => false,
        },
        r is Ok <==> old(io).next < old(io).items.len(),
        final(io).items == old(io).items,
{
    if io.next < io.items.len() {
        let k = io.next;
        io.next = k + 1;
        Ok(k)
    } else {
        Err(Stop::Needs(request))
    }
}
/// Calls foreign function `f` on `args` at call node `i`.
pub fn call_foreign(
    t: &SyntaxTree,
    i: usize,
    f: &ForeignFunction,
    args: &Vec<Value>,
    io: &mut Replies<'_>,
) -> (r: Result<Value, Stop>)
    requires
        i < t.nodes.len(),
    ensures
        final(io).items == old(io).items,
        sem_foreign(*t, old(io).items@, i as int, f.cmd@, vals(args@), Seq::empty(), old(io).next as int).out == view_val(r),
        sem_foreign(*t, old(io).items@, i as int, f.cmd@, vals(args@), Seq::empty(), old(io).next as int).next == final(io).next,
{
    let command = FFI::command_line(f, args);
    proof {
        assert(crate::ffi::texts_of(args@) =~= crate::semantics::texts(vals(args@)));
    }
    let k = match next_reply(io, Request::RunForeign { command }) {
        Ok(k) => k,
        Err(e) => return Err(e),
    };
    match &io.items[k] {
        Reply::Foreign(reply) => match FFI::call(reply) {
            Ok(v) => Ok(v),
            Err(kind) => Err(fail_at(t, i, kind)),
        },
        _ => Err(fail_at(t, i, ErrorKind::ReplyMismatch)),
    }
}

/// Runs program `name` on `args` at call node `i`.
pub fn call_shell(
    t: &SyntaxTree,
    i: usize,
    name: String,
    args: &Vec<Value>,
    io: &mut Replies<'_>,
) -> (r: Result<Value, Stop>)
    requires
        i < t.nodes.len(),
    ensures
        final(io).items == old(io).items,
        sem_shell(*t, old(io).items@, i as int, name@, vals(args@), Seq::empty(), old(io).next as int).out == view_val(r),
        sem_shell(*t, old(io).items@, i as int, name@, vals(args@), Seq::empty(), old(io).next as int).next == final(io).next,
{
    let texts = Shell::arguments(args);
    proof {
        assert(strings_view(texts@) =~= crate::semantics::texts(vals(args@)));
    }
    let request = Request::RunShell { program: name, args: texts };
    let k = match next_reply(io, request) {
        Ok(k) => k,
        Err(e) => return Err(e),
    };
    match &io.items[k] {
        Reply::Shell(reply) => match Shell::call(reply) {
            Ok(v) => Ok(v),
            Err(kind) => Err(fail_at(t, i, kind)),
        },
        _ => Err(fail_at(t, i, ErrorKind::ReplyMismatch)),
    }
}

/// The argument nodes of call node `i`.
fn call_arguments(t: &SyntaxTree, i: usize) -> (r: Vec<usize>)
    requires
        t.wf(),
        i < t.nodes.len(),
    ensures
        forall|k: int| 0 <= k < r.len() ==> i < #[trigger] r[k] < t.nodes.len(),
        r@ == argument_nodes(*t, i as int),
{
    let under = t.field_children(i, FieldName::Arguments);
    if under.len() == 1 && t.nodes[under[0]].kind == NodeKind::Arguments {
        t.named_children(under[0])
    } else {
        under
    }
}
/// The parameter names of lambda node `i`.
fn lambda_parameters(t: &SyntaxTree, i: usize) -> (r: Result<Vec<String>, Stop>)
    requires
        t.wf(),
        i < t.nodes.len(),
    ensures
        match sem_params(*t, parameter_nodes(*t, i as int)) {
            Ok(ps) => r matches Ok(v) && strings_view(v@) == ps,
            Err(h) => r matches Err(e) && halt_of(e) == h,
        },
{
    let under = t.field_children(i, FieldName::Parameters);
    let nodes = if under.len() == 1 && t.nodes[under[0]].kind == NodeKind::FormalParameters {
        t.named_children(under[0])
    } else {
        under
    };
    assert(nodes@ == parameter_nodes(*t, i as int));
    let mut names: Vec<String> = Vec::new();
    assert(nodes@.subrange(0, 0) =~= Seq::<usize>::empty());
    assert(strings_view(names@) =~= Seq::<Seq<char>>::empty());
    let mut k: usize = 0;
    while k < nodes.len()
        invariant
            t.wf(),
            k <= nodes.len(),
            forall|j: int| 0 <= j < nodes.len() ==> #[trigger] nodes[j] < t.nodes.len(),
            sem_params(*t, nodes@.subrange(0, k as int)) == Ok::<Seq<Seq<char>>, Halt>(strings_view(names@)),
            nodes@ == parameter_nodes(*t, i as int),
            i < t.nodes.len(),
        decreases nodes.len() - k,
    {
        let ghost p = nodes@.subrange(0, k + 1);
        assert(p.drop_last() =~= nodes@.subrange(0, k as int));
        assert(p.last() == nodes@[k as int]);
        match identifier_name(t, nodes[k]) {
            Ok(s) => {
                let ghost before = names@;
                let ghost sv = s@;
                names.push(s);
                assert(strings_view(names@) =~= strings_view(before).push(sv));
            },
            Err(e) => {
                proof {
                    lemma_params_stuck(*t, nodes@, k + 1);
                }
                return Err(e);
            },
        }
        k += 1;
    }
    assert(nodes@.subrange(0, k as int) =~= nodes@);
    Ok(names)
}

/// Once a prefix of the parameters fails, so does the whole list.
proof fn lemma_params_stuck(t: SyntaxTree, nodes: Seq<usize>, k: int)
    requires
        0 <= k <= nodes.len(),
        sem_params(t, nodes.subrange(0, k)) is Err,
    ensures
        sem_params(t, nodes) == sem_params(t, nodes.subrange(0, k)),
    decreases nodes.len() - k,
{
    if k < nodes.len() {
        let p = nodes.subrange(0, k + 1);
        assert(p.drop_last() =~= nodes.subrange(0, k));
        lemma_params_stuck(t, nodes, k + 1);
    } else {
        assert(nodes.subrange(0, k) =~= nodes);
    }
}

/// Evaluates a statement block, in a new frame that starts as `seed`.
#[verifier::rlimit(80)]
pub fn evaluate_statement_block(
    t: &SyntaxTree,
    i: usize,
    ctx: &mut Context,
    io: &mut Replies<'_>,
    fuel: u64,
    seed: SymbolTable,
) -> (r: Result<Signal, Stop>)
    requires
        t.wf(),
        i < t.nodes.len(),
        old(ctx)@.len() > 0,
    ensures
        final(ctx)@.len() == old(ctx)@.len(),
        final(io).items == old(io).items,
        sem_block(*t, old(io).items@, fuel as nat, i as int, entries_view(seed@), old(ctx)@, old(io).next as int) == (Run { out: view_sig(r), frames: final(ctx)@, next: final(io).next as int }),
    decreases fuel, t.nodes.len() - i, 6int,
{
    if t.nodes[i].kind != NodeKind::StatementBlock {
        return Err(fail_at(t, i, ErrorKind::UnexpectedNode));
    }
    let ghost depth = ctx@.len();
    let ghost start = ctx@.push(entries_view(seed@));
    ctx.push_frame(seed);
    let kids = t.named_children(i);
    let ghost whole = sem_stmts(*t, old(io).items@, fuel as nat, i as int, kids@, 0, start, old(io).next as int);
    let mut k: usize = 0;
    while k < kids.len()
        invariant
            t.wf(),
            i < t.nodes.len(),
            io.items == old(io).items,
            t.nodes[i as int].kind == NodeKind::StatementBlock,
            ctx@.len() == depth + 1,
            depth == old(ctx)@.len(),
            depth > 0,
            k <= kids.len(),
            kids@ == named_of(*t, t.nodes[i as int].children@),
            forall|j: int| 0 <= j < kids.len() ==> i < #[trigger] kids[j] < t.nodes.len(),
            whole == sem_stmts(*t, old(io).items@, fuel as nat, i as int, kids@, k as int, ctx@, io.next as int),
            whole == sem_stmts(*t, old(io).items@, fuel as nat, i as int, kids@, 0, start, old(io).next as int),
            start == old(ctx)@.push(entries_view(seed@)),
        decreases kids.len() - k,
    {
        let ghost s_k = ctx@;
        let ghost n_k = io.next as int;
        proof {
            lemma_stmts_step(*t, old(io).items@, fuel as nat, i as int, kids@, k as int, s_k, n_k);
        }
        let res = evaluate_statement(t, kids[k], ctx, io, fuel);
        match res {
            Ok(Signal::Plain(_)) => {},
            Ok(Signal::Return(v)) => {
                ctx.pop_scope();
                return Ok(Signal::Return(v));
            },
            Err(e) => {
                ctx.pop_scope();
                return Err(e);
            },
        }
        k += 1;
    }
    ctx.pop_scope();
    Ok(Signal::Plain(Value::Undefined))
}

/// Evaluates one statement.
#[verifier::rlimit(80)]
pub fn evaluate_statement(
    t: &SyntaxTree,
    i: usize,
    ctx: &mut Context,
    io: &mut Replies<'_>,
    fuel: u64,
) -> (r: Result<Signal, Stop>)
    requires
        t.wf(),
        i < t.nodes.len(),
        old(ctx)@.len() > 0,
    ensures
        final(ctx)@.len() == old(ctx)@.len(),
        final(io).items == old(io).items,
        sem_stmt(*t, old(io).items@, fuel as nat, i as int, old(ctx)@, old(io).next as int) == (Run { out: view_sig(r), frames: final(ctx)@, next: final(io).next as int }),
    decreases fuel, t.nodes.len() - i, 7int,
{
    match t.nodes[i].kind {
        NodeKind::ExpressionStatement => {
            let kids = t.named_children(i);
            if kids.len() == 0 {
                return Err(fail_at(t, i, ErrorKind::UnexpectedNode));
            }
            evaluate_expression(t, kids[0], ctx, io, fuel)
        },
        NodeKind::VariableDeclaration => match evaluate_variable_declaration(t, i, ctx, io, fuel) {
            Ok(()) => Ok(Signal::Plain(Value::Undefined)),
            Err(e) => Err(e),
        },
        NodeKind::Assignment => match evaluate_assignment(t, i, ctx, io, fuel) {
            Ok(v) => Ok(Signal::Plain(v)),
            Err(e) => Err(e),
        },
        NodeKind::ReturnStatement => {
            let target = match t.field(i, FieldName::Value) {
                Some(c) => Some(c),
                None => {
                    let kids = t.named_children(i);
                    if kids.len() > 0 {
                        Some(kids[0])
                    } else {
                        None
                    }
                },
            };
            match target {
                Some(c) => match evaluate_value(t, c, ctx, io, fuel) {
                    Ok(v) => Ok(Signal::Return(v)),
                    Err(e) => Err(e),
                },
                None => Ok(Signal::Return(Value::Undefined)),
            }
        },
        NodeKind::StatementBlock => {
            let seed: SymbolTable = Vec::new();
            assert(entries_view(seed@) =~= Seq::<(Seq<char>, Val)>::empty());
            evaluate_statement_block(t, i, ctx, io, fuel, seed)
        },
        _ => Err(fail_at(t, i, ErrorKind::UnexpectedNode)),
    }
}

/// Evaluates a variable declaration: each declarator in turn.
#[verifier::rlimit(80)]
pub fn evaluate_variable_declaration(
    t: &SyntaxTree,
    i: usize,
    ctx: &mut Context,
    io: &mut Replies<'_>,
    fuel: u64,
) -> (r: Result<(), Stop>)
    requires
        t.wf(),
        i < t.nodes.len(),
        old(ctx)@.len() > 0,
    ensures
        final(ctx)@.len() == old(ctx)@.len(),
        final(io).items == old(io).items,
        sem_decls(*t, old(io).items@, fuel as nat, i as int, named_of(*t, t.nodes[i as int].children@), 0, old(ctx)@, old(io).next as int) == (Run { out: view_unit(r), frames: final(ctx)@, next: final(io).next as int }),
    decreases fuel, t.nodes.len() - i, 4int,
{
    let kids = t.named_children(i);
    let ghost depth = ctx@.len();
    let ghost whole = sem_decls(*t, old(io).items@, fuel as nat, i as int, kids@, 0, old(ctx)@, old(io).next as int);
    let mut k: usize = 0;
    while k < kids.len()
        invariant
            t.wf(),
            i < t.nodes.len(),
            io.items == old(io).items,
            ctx@.len() == depth,
            depth == old(ctx)@.len(),
            depth > 0,
            k <= kids.len(),
            forall|j: int| 0 <= j < kids.len() ==> i < #[trigger] kids[j] < t.nodes.len(),
            whole == sem_decls(*t, old(io).items@, fuel as nat, i as int, kids@, k as int, ctx@, io.next as int),
            whole == sem_decls(*t, old(io).items@, fuel as nat, i as int, kids@, 0, old(ctx)@, old(io).next as int),
            kids@ == named_of(*t, t.nodes[i as int].children@),
        decreases kids.len() - k,
    {
        proof {
            lemma_decls_step(*t, old(io).items@, fuel as nat, i as int, kids@, k as int, ctx@, io.next as int);
        }
        match evaluate_variable_declarator(t, kids[k], ctx, io, fuel) {
            Ok(()) => {},
            Err(e) => return Err(e),
        }
        k += 1;
    }
    Ok(())
}

/// Evaluates one declarator: binds its name in the top frame to
/// `Undefined`, then to its initializer's value if it has one.
#[verifier::rlimit(80)]
pub fn evaluate_variable_declarator(
    t: &SyntaxTree,
    i: usize,
    ctx: &mut Context,
    io: &mut Replies<'_>,
    fuel: u64,
) -> (r: Result<(), Stop>)
    requires
        t.wf(),
        i < t.nodes.len(),
        old(ctx)@.len() > 0,
    ensures
        final(ctx)@.len() == old(ctx)@.len(),
        final(io).items == old(io).items,
        sem_declarator(*t, old(io).items@, fuel as nat, i as int, old(ctx)@, old(io).next as int) == (Run { out: view_unit(r), frames: final(ctx)@, next: final(io).next as int }),
    decreases fuel, t.nodes.len() - i, 4int,
{
    if t.nodes[i].kind != NodeKind::VariableDeclarator {
        return Err(fail_at(t, i, ErrorKind::UnexpectedNode));
    }
    let var = match t.field(i, FieldName::Variable) {
        Some(c) => c,
        None => return Err(fail_at(t, i, ErrorKind::UnexpectedNode)),
    };
    let name = match identifier_name(t, var) {
        Ok(s) => s,
        Err(e) => return Err(e),
    };
    ctx.declare(name.clone(), Value::Undefined);
    match t.field(i, FieldName::Value) {
        Some(c) => match evaluate_value(t, c, ctx, io, fuel) {
            Ok(v) => {
                ctx.declare(name, v);
                Ok(())
            },
            Err(e) => Err(e),
        },
        None => Ok(()),
    }
}

/// Evaluates an assignment: rebinds the name where it resolves, and yields
/// the value.
#[verifier::rlimit(80)]
pub fn evaluate_assignment(
    t: &SyntaxTree,
    i: usize,
    ctx: &mut Context,
    io: &mut Replies<'_>,
    fuel: u64,
) -> (r: Result<Value, Stop>)
    requires
        t.wf(),
        i < t.nodes.len(),
        old(ctx)@.len() > 0,
    ensures
        final(ctx)@.len() == old(ctx)@.len(),
        final(io).items == old(io).items,
        sem_assign(*t, old(io).items@, fuel as nat, i as int, old(ctx)@, old(io).next as int) == (Run { out: view_val(r), frames: final(ctx)@, next: final(io).next as int }),
    decreases fuel, t.nodes.len() - i, 4int,
{
    let lhs = match t.field(i, FieldName::Lhs) {
        Some(c) => c,
        None => return Err(fail_at(t, i, ErrorKind::UnexpectedNode)),
    };
    let rhs = match t.field(i, FieldName::Rhs) {
        Some(c) => c,
        None => return Err(fail_at(t, i, ErrorKind::UnexpectedNode)),
    };
    let name = match identifier_name(t, lhs) {
        Ok(s) => s,
        Err(e) => return Err(e),
    };
    let v = match evaluate_value(t, rhs, ctx, io, fuel) {
        Ok(v) => v,
        Err(e) => return Err(e),
    };
    let stored = v.deep_copy();
    proof {
        crate::context::lemma_frame_index_bounds(ctx@, name@);
    }
    if ctx.assign(name, stored) {
        Ok(v)
    } else {
        Err(fail_at(t, i, ErrorKind::UndefinedAssignment))
    }
}

/// Evaluates an expression that must yield a plain value.
pub fn evaluate_value(
    t: &SyntaxTree,
    i: usize,
    ctx: &mut Context,
    io: &mut Replies<'_>,
    fuel: u64,
) -> (r: Result<Value, Stop>)
    requires
        t.wf(),
        i < t.nodes.len(),
        old(ctx)@.len() > 0,
    ensures
        final(ctx)@.len() == old(ctx)@.len(),
        final(io).items == old(io).items,
        sem_value(*t, old(io).items@, fuel as nat, i as int, old(ctx)@, old(io).next as int) == (Run { out: view_val(r), frames: final(ctx)@, next: final(io).next as int }),
    decreases fuel, t.nodes.len() - i, 5int,
{
    match evaluate_expression(t, i, ctx, io, fuel) {
        Ok(Signal::Plain(v)) => Ok(v),
        Ok(Signal::Return(_)) => Err(fail_at(t, i, ErrorKind::ReturnInExpression)),
        Err(e) => Err(e),
    }
}

/// Evaluates an expression.
#[verifier::rlimit(80)]
pub fn evaluate_expression(
    t: &SyntaxTree,
    i: usize,
    ctx: &mut Context,
    io: &mut Replies<'_>,
    fuel: u64,
) -> (r: Result<Signal, Stop>)
    requires
        t.wf(),
        i < t.nodes.len(),
        old(ctx)@.len() > 0,
    ensures
        final(ctx)@.len() == old(ctx)@.len(),
        final(io).items == old(io).items,
        sem_expr(*t, old(io).items@, fuel as nat, i as int, old(ctx)@, old(io).next as int) == (Run { out: view_sig(r), frames: final(ctx)@, next: final(io).next as int }),
    decreases fuel, t.nodes.len() - i, 4int,
{
    match t.nodes[i].kind {
        NodeKind::Literal | NodeKind::Number | NodeKind::String => match evaluate_literal(t, i) {
            Ok(v) => Ok(Signal::Plain(v)),
            Err(e) => Err(e),
        },
        NodeKind::Identifier => {
            let name = t.node_text(i);
            match ctx.lookup(&name) {
                Some(v) => Ok(Signal::Plain(v)),
                None => Err(fail_at(t, i, ErrorKind::UnboundVariable)),
            }
        },
        NodeKind::BinaryExpression => match evaluate_binary_expression(t, i, ctx, io, fuel) {
            Ok(v) => Ok(Signal::Plain(v)),
            Err(e) => Err(e),
        },
        NodeKind::NestedIdentifier => {
            let parent = match t.field(i, FieldName::Parent) {
                Some(c) => c,
                None => return Err(fail_at(t, i, ErrorKind::UnexpectedNode)),
            };
            let name_node = match t.field(i, FieldName::Name) {
                Some(c) => c,
                None => return Err(fail_at(t, i, ErrorKind::UnexpectedNode)),
            };
            let receiver = match evaluate_value(t, parent, ctx, io, fuel) {
                Ok(v) => v,
                Err(e) => return Err(e),
            };
            let key = t.node_text(name_node);
            match receiver.get_attribute(&key) {
                Ok(v) => Ok(Signal::Plain(v)),
                Err(kind) => Err(fail_at(t, i, kind)),
            }
        },
        NodeKind::ArrayExpression => {
            let kids = t.named_children(i);
            match evaluate_arguments(t, i, &kids, ctx, io, fuel) {
                Ok(items) => {
                    let ghost iv = vals(items@);
                    let a = Value::SamArray(items);
                    assert(a@ == Val::Arr(iv)) by {
                        assert(a@->Arr_0 =~= iv);
                    }
                    Ok(Signal::Plain(a))
                },
                Err(e) => Err(e),
            }
        },
        NodeKind::LambdaExpression => {
            let body = match t.field(i, FieldName::Body) {
                Some(c) => c,
                None => return Err(fail_at(t, i, ErrorKind::UnexpectedNode)),
            };
            let params = match lambda_parameters(t, i) {
                Ok(p) => p,
                Err(e) => return Err(e),
            };
            Ok(
                Signal::Plain(
                    Value::SamFunction(
                        Function { start: t.nodes[body].start, end: t.nodes[body].end, params },
                    ),
                ),
            )
        },
        NodeKind::CallExpression => match evaluate_call(t, i, ctx, io, fuel) {
            Ok(v) => Ok(Signal::Plain(v)),
            Err(e) => Err(e),
        },
        NodeKind::IfExpression => evaluate_if_expression(t, i, ctx, io, fuel),
        _ => Err(fail_at(t, i, ErrorKind::UnexpectedNode)),
    }
}

/// Evaluates both operands, left first, then applies the operator.
#[verifier::rlimit(80)]
pub fn evaluate_binary_expression(
    t: &SyntaxTree,
    i: usize,
    ctx: &mut Context,
    io: &mut Replies<'_>,
    fuel: u64,
) -> (r: Result<Value, Stop>)
    requires
        t.wf(),
        i < t.nodes.len(),
        old(ctx)@.len() > 0,
    ensures
        final(ctx)@.len() == old(ctx)@.len(),
        final(io).items == old(io).items,
        sem_binary(*t, old(io).items@, fuel as nat, i as int, old(ctx)@, old(io).next as int) == (Run { out: view_val(r), frames: final(ctx)@, next: final(io).next as int }),
    decreases fuel, t.nodes.len() - i, 3int,
{
    let left = match t.field(i, FieldName::Left) {
        Some(c) => c,
        None => return Err(fail_at(t, i, ErrorKind::UnexpectedNode)),
    };
    let right = match t.field(i, FieldName::Right) {
        Some(c) => c,
        None => return Err(fail_at(t, i, ErrorKind::UnexpectedNode)),
    };
    let a = match evaluate_value(t, left, ctx, io, fuel) {
        Ok(v) => v,
        Err(e) => return Err(e),
    };
    let b = match evaluate_value(t, right, ctx, io, fuel) {
        Ok(v) => v,
        Err(e) => return Err(e),
    };
    let token = match t.child(i, 1) {
        Some(c) => c,
        None => return Err(fail_at(t, i, ErrorKind::UnexpectedNode)),
    };
    let op = match BinaryOp::from_token(&t.node_chars(token)) {
        Some(op) => op,
        None => return Err(fail_at(t, i, ErrorKind::UnknownOperator)),
    };
    match apply_binary(op, a, b) {
        Ok(v) => Ok(v),
        Err(kind) => Err(fail_at(t, i, kind)),
    }
}

/// The branch an `if` takes on condition value `v`: an integer decides by
/// being nonzero; any other value is refused.
pub fn condition_truth(v: &Value) -> (r: Result<bool, ErrorKind>)
    ensures
        match v@ {
            Val::Num(Number::SamInt(x)) => r == Ok::<bool, ErrorKind>(x != 0),
            _ => r == Err::<bool, ErrorKind>(ErrorKind::ConditionNotInt),
        },
{
    match v {
        Value::SamNumber(Number::SamInt(x)) => Ok(*x != 0),
        _ => Err(ErrorKind::ConditionNotInt),
    }
}

/// Evaluates an `if`: the condition must be an integer; a nonzero one runs
/// the consequence, a zero one the `else` arm, if any.
#[verifier::rlimit(80)]
pub fn evaluate_if_expression(
    t: &SyntaxTree,
    i: usize,
    ctx: &mut Context,
    io: &mut Replies<'_>,
    fuel: u64,
) -> (r: Result<Signal, Stop>)
    requires
        t.wf(),
        i < t.nodes.len(),
        old(ctx)@.len() > 0,
    ensures
        final(ctx)@.len() == old(ctx)@.len(),
        final(io).items == old(io).items,
        sem_if(*t, old(io).items@, fuel as nat, i as int, old(ctx)@, old(io).next as int) == (Run { out: view_sig(r), frames: final(ctx)@, next: final(io).next as int }),
    decreases fuel, t.nodes.len() - i, 3int,
{
    let cond = match t.field(i, FieldName::Condition) {
        Some(c) => c,
        None => return Err(fail_at(t, i, ErrorKind::UnexpectedNode)),
    };
    let holds = match evaluate_value(t, cond, ctx, io, fuel) {
        Ok(v) => match condition_truth(&v) {
            Ok(b) => b,
            Err(kind) => return Err(fail_at(t, cond, kind)),
        },
        Err(e) => return Err(e),
    };
    let seed: SymbolTable = Vec::new();
    assert(entries_view(seed@) =~= Seq::<(Seq<char>, Val)>::empty());
    if holds {
        match t.field(i, FieldName::Consequence) {
            Some(c) => evaluate_statement_block(t, c, ctx, io, fuel, seed),
            None => Err(fail_at(t, i, ErrorKind::UnexpectedNode)),
        }
    } else {
        match t.field(i, FieldName::Else) {
            Some(c) => match t.nodes[c].kind {
                NodeKind::IfExpression => evaluate_if_expression(t, c, ctx, io, fuel),
                _ => evaluate_statement_block(t, c, ctx, io, fuel, seed),
            },
            None => Ok(Signal::Plain(Value::Undefined)),
        }
    }
}

/// Evaluates expression nodes left to right.
#[verifier::rlimit(80)]
pub fn evaluate_arguments(
    t: &SyntaxTree,
    i: usize,
    nodes: &Vec<usize>,
    ctx: &mut Context,
    io: &mut Replies<'_>,
    fuel: u64,
) -> (r: Result<Vec<Value>, Stop>)
    requires
        t.wf(),
        i < t.nodes.len(),
        old(ctx)@.len() > 0,
        forall|k: int| 0 <= k < nodes.len() ==> i < #[trigger] nodes[k] < t.nodes.len(),
    ensures
        final(ctx)@.len() == old(ctx)@.len(),
        final(io).items == old(io).items,
        sem_list(*t, old(io).items@, fuel as nat, i as int, nodes@, 0, old(ctx)@, old(io).next as int, Seq::empty()) == (Run { out: view_vals(r), frames: final(ctx)@, next: final(io).next as int }),
    decreases fuel, t.nodes.len() - i, 1int,
{
    let ghost depth = ctx@.len();
    let ghost whole = sem_list(*t, old(io).items@, fuel as nat, i as int, nodes@, 0, old(ctx)@, old(io).next as int, Seq::empty());
    let mut out: Vec<Value> = Vec::new();
    assert(vals(out@) =~= Seq::<Val>::empty());
    let mut k: usize = 0;
    while k < nodes.len()
        invariant
            t.wf(),
            i < t.nodes.len(),
            io.items == old(io).items,
            ctx@.len() == depth,
            depth == old(ctx)@.len(),
            depth > 0,
            k <= nodes.len(),
            forall|j: int| 0 <= j < nodes.len() ==> i < #[trigger] nodes[j] < t.nodes.len(),
            whole == sem_list(*t, old(io).items@, fuel as nat, i as int, nodes@, k as int, ctx@, io.next as int, vals(out@)),
            whole == sem_list(*t, old(io).items@, fuel as nat, i as int, nodes@, 0, old(ctx)@, old(io).next as int, Seq::empty()),
        decreases nodes.len() - k,
    {
        proof {
            lemma_list_step(*t, old(io).items@, fuel as nat, i as int, nodes@, k as int, ctx@, io.next as int, vals(out@));
        }
        match evaluate_value(t, nodes[k], ctx, io, fuel) {
            Ok(v) => {
                let ghost before = out@;
                out.push(v);
                assert(vals(out@) =~= vals(before).push(v@));
            },
            Err(e) => return Err(e),
        }
        k += 1;
    }
    Ok(out)
}

/// Calls user function `f` on `args` from call node `i`: the body runs in a
/// new frame that binds each parameter to its argument.
#[verifier::rlimit(80)]
pub fn call_function(
    t: &SyntaxTree,
    i: usize,
    f: &Function,
    args: &Vec<Value>,
    ctx: &mut Context,
    io: &mut Replies<'_>,
    fuel: u64,
) -> (r: Result<Value, Stop>)
    requires
        t.wf(),
        i < t.nodes.len(),
        old(ctx)@.len() > 0,
    ensures
        final(ctx)@.len() == old(ctx)@.len(),
        final(io).items == old(io).items,
        sem_apply(*t, old(io).items@, fuel as nat, i as int, f.start as nat, f.end as nat, strings_view(f.params@), vals(args@), old(ctx)@, old(io).next as int) == (Run { out: view_val(r), frames: final(ctx)@, next: final(io).next as int }),
    decreases fuel, t.nodes.len() - i, 2int,
{
    if args.len() != f.params.len() {
        return Err(fail_at(t, i, ErrorKind::ArityMismatch));
    }
    if fuel == 0 {
        return Err(fail_at(t, i, ErrorKind::CallDepthExceeded));
    }
    let body = match t.descend(f.start, f.end, NodeKind::StatementBlock) {
        Some(b) => b,
        None => return Err(fail_at(t, i, ErrorKind::UnexpectedNode)),
    };
    let frame = bind_arguments(&f.params, args);
    match evaluate_statement_block(t, body, ctx, io, fuel - 1, frame) {
        Ok(Signal::Return(v)) => Ok(v),
        Ok(Signal::Plain(v)) => Ok(v),
        Err(e) => Err(e),
    }
}

/// Evaluates a call: a user function when the callee is one; otherwise, for
/// a bare name, the foreign function the global frame binds it to, or else
/// the program of that name.
#[verifier::rlimit(80)]
pub fn evaluate_call(
    t: &SyntaxTree,
    i: usize,
    ctx: &mut Context,
    io: &mut Replies<'_>,
    fuel: u64,
) -> (r: Result<Value, Stop>)
    requires
        t.wf(),
        i < t.nodes.len(),
        old(ctx)@.len() > 0,
    ensures
        final(ctx)@.len() == old(ctx)@.len(),
        final(io).items == old(io).items,
        sem_call(*t, old(io).items@, fuel as nat, i as int, old(ctx)@, old(io).next as int) == (Run { out: view_val(r), frames: final(ctx)@, next: final(io).next as int }),
    decreases fuel, t.nodes.len() - i, 3int,
{
    let callee = match t.field(i, FieldName::Function) {
        Some(c) => c,
        None => return Err(fail_at(t, i, ErrorKind::UnexpectedNode)),
    };
    let arg_nodes = call_arguments(t, i);
    if t.nodes[callee].kind == NodeKind::Identifier {
        let name = t.node_text(callee);
        let found = ctx.lookup(&name);
        let args = match evaluate_arguments(t, i, &arg_nodes, ctx, io, fuel) {
            Ok(a) => a,
            Err(e) => return Err(e),
        };
        match found {
            Some(Value::SamFunction(f)) => call_function(t, i, &f, &args, ctx, io, fuel),
            _ => match ctx.global_get(&name) {
                Some(Value::SamForeignFunction(f)) => call_foreign(t, i, &f, &args, io),
                _ => call_shell(t, i, name, &args, io),
            },
        }
    } else {
        let target = match evaluate_value(t, callee, ctx, io, fuel) {
            Ok(v) => v,
            Err(e) => return Err(e),
        };
        let args = match evaluate_arguments(t, i, &arg_nodes, ctx, io, fuel) {
            Ok(a) => a,
            Err(e) => return Err(e),
        };
        match target {
            Value::SamFunction(f) => call_function(t, i, &f, &args, ctx, io, fuel),
            Value::SamForeignFunction(f) => call_foreign(t, i, &f, &args, io),
            _ => Err(fail_at(t, i, ErrorKind::NotCallable)),
        }
    }
}

/// Processes the declarations of `interfaces` block `i`: each names a
/// manifest and an entry of it, which becomes a foreign function in the
/// global frame.
fn evaluate_interfaces(t: &SyntaxTree, i: usize, ctx: &mut Context, io: &mut Replies<'_>) -> (r: Result<
    (),
    Stop,
>)
    requires
        t.wf(),
        i < t.nodes.len(),
        old(ctx)@.len() > 0,
    ensures
        final(ctx)@.len() == old(ctx)@.len(),
        final(io).items == old(io).items,
        sem_interfaces(*t, old(io).items@, named_of(*t, t.nodes[i as int].children@), 0, old(ctx)@, old(io).next as int) == (Run {
            out: view_unit(r),
            frames: final(ctx)@,
            next: final(io).next as int,
        }),
{
    proof {
        reveal_with_fuel(sem_interfaces, 2);
    }
    let kids = t.named_children(i);
    let ghost depth = ctx@.len();
    let ghost whole = sem_interfaces(*t, old(io).items@, kids@, 0, old(ctx)@, old(io).next as int);
    let mut k: usize = 0;
    while k < kids.len()
        invariant
            t.wf(),
            ctx@.len() == depth,
            depth == old(ctx)@.len(),
            io.items == old(io).items,
            depth > 0,
            k <= kids.len(),
            forall|j: int| 0 <= j < kids.len() ==> #[trigger] kids[j] < t.nodes.len(),
            whole == sem_interfaces(*t, old(io).items@, kids@, k as int, ctx@, io.next as int),
            whole == sem_interfaces(*t, old(io).items@, kids@, 0, old(ctx)@, old(io).next as int),
            kids@ == named_of(*t, t.nodes[i as int].children@),
        decreases kids.len() - k,
    {
        let c = kids[k];
        if t.nodes[c].kind != NodeKind::Interface {
            return Err(fail_at(t, c, ErrorKind::UnexpectedNode));
        }
        let path_node = match t.field(c, FieldName::Path) {
            Some(p) => p,
            None => return Err(fail_at(t, c, ErrorKind::UnexpectedNode)),
        };
        let module_node = match t.field(c, FieldName::Module) {
            Some(m) => m,
            None => return Err(fail_at(t, c, ErrorKind::UnexpectedNode)),
        };
        let path = match t.nodes[path_node].kind {
            NodeKind::String | NodeKind::Literal => match evaluate_literal(t, path_node) {
                Ok(Value::SamString(s)) => s,
                Ok(_) => return Err(fail_at(t, path_node, ErrorKind::UnexpectedNode)),
                Err(e) => return Err(e),
            },
            _ => t.node_text(path_node),
        };
        let name = match identifier_name(t, module_node) {
            Ok(s) => s,
            Err(e) => return Err(e),
        };
        let r = match next_reply(io, Request::ReadManifest { path }) {
            Ok(r) => r,
            Err(e) => return Err(e),
        };
        match &io.items[r] {
            Reply::Manifest(reply) => match FFI::register_ffi(reply, &name, ctx) {
                Ok(()) => {},
                Err(kind) => return Err(fail_at(t, c, kind)),
            },
            _ => return Err(fail_at(t, c, ErrorKind::ReplyMismatch)),
        }
        k += 1;
    }
    Ok(())
}

/// Evaluates a whole program with the replies gathered so far: the outcome
/// is exactly what `sem_program` gives.
#[verifier::rlimit(80)]
pub fn evaluate(tree: &SyntaxTree, replies: &Vec<Reply>) -> (r: Outcome)
    ensures
        ending_of(r) == sem_program(*tree, replies@),
        r matches Outcome::Finished(c) ==> c@.len() == 1,
{
    if !tree.check() || tree.nodes.len() == 0 {
        return Outcome::Failed(EvalError::new(ErrorKind::UnexpectedNode, 0, 0));
    }
    if tree.nodes[0].kind != NodeKind::SourceFile {
        return Outcome::Failed(
            EvalError::new(ErrorKind::UnexpectedNode, tree.nodes[0].start, tree.nodes[0].end),
        );
    }
    let mut ctx = Context::new();
    let mut io = Replies { items: replies, next: 0 };
    let kids = tree.named_children(0);
    let mut k: usize = 0;
    if kids.len() > 0 && tree.nodes[kids[0]].kind == NodeKind::Interfaces {
        match evaluate_interfaces(tree, kids[0], &mut ctx, &mut io) {
            Ok(()) => {},
            Err(Stop::Fail(e)) => return Outcome::Failed(e),
            Err(Stop::Needs(q)) => return Outcome::Needs(q),
        }
        k = 1;
    }
    let ghost whole = sem_program(*tree, replies@);
    while k < kids.len()
        invariant
            tree.wf(),
            tree.nodes.len() > 0,
            tree.nodes[0].kind == NodeKind::SourceFile,
            ctx@.len() == 1,
            io.items == replies,
            k <= kids.len(),
            kids@ == named_of(*tree, tree.nodes[0].children@),
            forall|j: int| 0 <= j < kids.len() ==> #[trigger] kids[j] < tree.nodes.len(),
            whole == sem_top(*tree, replies@, kids@, k as int, ctx@, io.next as int),
            whole == sem_program(*tree, replies@),
        decreases kids.len() - k,
    {
        let c = kids[k];
        proof {
            lemma_top_step(*tree, replies@, kids@, k as int, ctx@, io.next as int);
        }
        match evaluate_statement(tree, c, &mut ctx, &mut io, MAX_CALL_DEPTH) {
            Ok(Signal::Plain(_)) => {},
            Ok(Signal::Return(_)) => {
                return Outcome::Failed(
                    EvalError::new(
                        ErrorKind::ReturnOutsideFunction,
                        tree.nodes[c].start,
                        tree.nodes[c].end,
                    ),
                );
            },
            Err(Stop::Fail(e)) => return Outcome::Failed(e),
            Err(Stop::Needs(q)) => return Outcome::Needs(q),
        }
        k += 1;
    }
    Outcome::Finished(ctx)
}

} // verus!
