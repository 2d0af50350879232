//! The bridge to external commands: interface manifests, foreign functions
//! that answer in JSON, and plain shell commands.
//!
//! Running a process or reading a file is the caller's part. The evaluator
//! states what it needs as a `Request`; the answer comes back as a `Reply`,
//! which the functions here turn into values.
use crate::context::{frame_put, frame_set, Context};
use crate::error::ErrorKind;
use crate::float::Float;
use crate::value::{bool_value, text_of, ForeignFunction, Number, Val, Value};
use vstd::prelude::*;

verus! {

/// A JSON document, as parsed from a manifest or a process's output.
#[derive(Debug)]
pub enum Json {
    Null,
    Bool(bool),
    /// A number that is an integer within `i64`.
    Int(i64),
    /// Any other number.
    Float(Float),
    Str(String),
    Array(Vec<Json>),
    Object(Vec<(String, Json)>),
}

/// What the evaluator needs done outside before it can go on.
#[derive(Debug)]
pub enum Request {
    /// Read and parse the interface manifest at `path`.
    ReadManifest { path: String },
    /// Run `command` through a shell and parse its standard output as JSON.
    RunForeign { command: String },
    /// Run `program` with `args` and capture what it prints.
    RunShell { program: String, args: Vec<String> },
}

/// The outcome of reading a manifest.
#[derive(Debug)]
pub enum ManifestReply {
    Unreadable,
    Invalid,
    Parsed(Json),
}

/// The outcome of running a foreign function.
#[derive(Debug)]
pub enum ForeignReply {
    SpawnFailed,
    NotJson,
    Parsed(Json),
}

/// The outcome of running a shell command; `status` is `None` when the
/// process ended without an exit code.
#[derive(Debug)]
pub enum ShellReply {
    SpawnFailed,
    Finished { stdout: String, stderr: String, status: Option<i32> },
}

/// The answer to one `Request`.
#[derive(Debug)]
pub enum Reply {
    Manifest(ManifestReply),
    Foreign(ForeignReply),
    Shell(ShellReply),
}

pub struct Shell;

pub struct FFI;

/// The value a JSON document converts to.
pub open spec fn json_val(j: Json) -> Val
    decreases j,
{
    match j {
        Json::Null => Val::Undef,
        Json::Bool(b) => bool_value(b),
        Json::Int(i) => Val::Num(Number::SamInt(i)),
        Json::Float(f) => Val::Num(Number::SamFloat(f)),
        Json::Str(s) => Val::Str(s@),
        Json::Array(a) => Val::Arr(
            Seq::new(
                a@.len(),
                |i: int|
                    if 0 <= i < a@.len() {
                        json_val(a[i])
                    } else {
                        Val::Undef
                    },
            ),
        ),
        Json::Object(e) => Val::Obj(
            Seq::new(
                e@.len(),
                |i: int|
                    if 0 <= i < e@.len() {
                        (e[i].0@, json_val(e[i].1))
                    } else {
                        (Seq::empty(), Val::Undef)
                    },
            ),
        ),
    }
}

/// The member named `k` of a JSON object's members (the first, if repeated).
pub open spec fn json_member(e: Seq<(String, Json)>, k: Seq<char>) -> Option<Json>
    decreases e.len(),
{
    if e.len() == 0 {
        None
    } else if e[0].0@ == k {
        Some(e[0].1)
    } else {
        json_member(e.drop_first(), k)
    }
}

/// The command template a manifest gives for `name`.
pub open spec fn manifest_command(manifest: Json, name: Seq<char>) -> Option<Seq<char>> {
    match manifest {
        Json::Object(e) => match json_member(e@, name) {
            Some(Json::Str(s)) => Some(s@),
            _ => None,
        },
        _ => None,
    }
}

/// Texts joined by single spaces.
pub open spec fn space_joined(texts: Seq<Seq<char>>) -> Seq<char>
    decreases texts.len(),
{
    if texts.len() == 0 {
        Seq::empty()
    } else if texts.len() == 1 {
        texts[0]
    } else {
        space_joined(texts.drop_last()) + seq![' '] + texts.last()
    }
}

/// `cmd`, a space, then the texts joined by spaces.
pub open spec fn command_text(cmd: Seq<char>, texts: Seq<Seq<char>>) -> Seq<char> {
    cmd + seq![' '] + space_joined(texts)
}

/// The renderings of a list of values.
pub open spec fn texts_of(args: Seq<Value>) -> Seq<Seq<char>> {
    args.map_values(|v: Value| text_of(v@))
}

/// The object a finished shell command yields.
pub open spec fn shell_object(stdout: Seq<char>, stderr: Seq<char>, status: Option<i32>) -> Val {
    Val::Obj(
        seq![
            ("stdout"@, Val::Str(stdout)),
            ("stderr"@, Val::Str(stderr)),
            ("status"@, Val::Num(Number::SamInt(
                match status {
                    Some(c) => c as i64,
                    None => -1i64,
                },
            ))),
        ],
    )
}

proof fn lemma_json_member_skip(e: Seq<(String, Json)>, k: Seq<char>, j: int)
    requires
        0 <= j <= e.len(),
        forall|i: int| 0 <= i < j ==> e[i].0@ != k,
    ensures
        json_member(e, k) == json_member(e.subrange(j, e.len() as int), k),
    decreases j,
{
    if j == 0 {
        assert(e.subrange(0, e.len() as int) =~= e);
    } else {
        let t = e.drop_first();
        assert forall|i: int| 0 <= i < j - 1 implies t[i].0@ != k by {
            assert(t[i] == e[i + 1]);
        }
        lemma_json_member_skip(t, k, j - 1);
        assert(t.subrange(j - 1, t.len() as int) =~= e.subrange(j, e.len() as int));
    }
}

impl Shell {
    /// The textual arguments a shell command gets for `args`.
    pub fn arguments(args: &Vec<Value>) -> (r: Vec<String>)
        ensures
            r.len() == args.len(),
            forall|i: int| 0 <= i < args.len() ==> #[trigger] r[i]@ == text_of(args[i]@),
    {
        let mut out: Vec<String> = Vec::new();
        let mut i: usize = 0;
        while i < args.len()
            invariant
                i <= args.len(),
                out.len() == i,
                forall|j: int| 0 <= j < i ==> #[trigger] out[j]@ == text_of(args[j]@),
            decreases args.len() - i,
        {
            let t = args[i].to_text();
            out.push(t);
            i += 1;
        }
        out
    }

    /// The result of a shell command: an object of its standard output, its
    /// standard error and its exit status (-1 without one).
    pub fn call(reply: &ShellReply) -> (r: Result<Value, ErrorKind>)
        ensures
            match reply {
                ShellReply::SpawnFailed => r == Err::<Value, ErrorKind>(ErrorKind::SpawnFailed),
                ShellReply::Finished { stdout, stderr, status } => r matches Ok(v) && v@
                    == shell_object(stdout@, stderr@, *status),
            },
    {
        match reply {
            ShellReply::SpawnFailed => Err(ErrorKind::SpawnFailed),
            ShellReply::Finished { stdout, stderr, status } => {
                let code: i64 = match status {
                    Some(c) => *c as i64,
                    None => -1,
                };
                let out_text = stdout.clone();
                let err_text = stderr.clone();
                assert(out_text@ == stdout@ && err_text@ == stderr@);
                let mut obj: Vec<(String, Value)> = Vec::new();
                obj.push((String::from_str("stdout"), Value::SamString(out_text)));
                obj.push((String::from_str("stderr"), Value::SamString(err_text)));
                obj.push((String::from_str("status"), Value::SamNumber(Number::SamInt(code))));
                let r = Value::SamObject(obj);
                proof {
                    reveal_strlit("stdout");
                    reveal_strlit("stderr");
                    reveal_strlit("status");
                    let x = r@->Obj_0;
                    let y = shell_object(stdout@, stderr@, *status)->Obj_0;
                    assert(x.len() == 3);
                    assert(obj@[0].0@ == "stdout"@);
                    assert(obj@[0].1@ == Val::Str(stdout@));
                    assert(x[0] == (obj@[0].0@, obj@[0].1@));
                    assert(x[0] == y[0]);
                    assert(obj@[1].0@ == "stderr"@);
                    assert(obj@[1].1@ == Val::Str(stderr@));
                    assert(x[1] == (obj@[1].0@, obj@[1].1@));
                    assert(x[1] == y[1]);
                    assert(obj@[2].0@ == "status"@);
                    assert(x[2] == (obj@[2].0@, obj@[2].1@));
                    assert(x[2] == y[2]);
                    assert(x =~= y);
                }
                Ok(r)
            },
        }
    }
}

impl FFI {
    /// The command template that `manifest` gives for `name`; an error when
    /// the manifest is not an object or its entry is missing or not a string.
    pub fn interface_command(manifest: &Json, name: &String) -> (r: Result<String, ErrorKind>)
        ensures
            match manifest_command(*manifest, name@) {
                Some(c) => r matches Ok(s) && s@ == c,
                None => r == Err::<String, ErrorKind>(ErrorKind::InterfaceEntry),
            },
    {
        match manifest {
            Json::Object(e) => {
                let mut j: usize = 0;
                while j < e.len()
                    invariant
                        j <= e.len(),
                        *manifest is Object,
                        manifest->Object_0 == *e,
                        forall|i: int| 0 <= i < j ==> e[i].0@ != name@,
                    decreases e.len() - j,
                {
                    if e[j].0 == *name {
                        proof {
                            lemma_json_member_skip(e@, name@, j as int);
                            assert(e@.subrange(j as int, e.len() as int)[0] == e[j as int]);
                        }
                        return match &e[j].1 {
                            Json::Str(s) => Ok(s.clone()),
                            _ => Err(ErrorKind::InterfaceEntry),
                        };
                    }
                    j += 1;
                }
                proof {
                    lemma_json_member_skip(e@, name@, j as int);
                }
                Err(ErrorKind::InterfaceEntry)
            },
            _ => Err(ErrorKind::InterfaceEntry),
        }
    }

    /// Installs the foreign function that the manifest gives for `name` into
    /// the global frame.
    pub fn register_ffi(reply: &ManifestReply, name: &String, ctx: &mut Context) -> (r: Result<
        (),
        ErrorKind,
    >)
        requires
            old(ctx)@.len() > 0,
        ensures
            final(ctx)@.len() == old(ctx)@.len(),
            match reply {
                ManifestReply::Unreadable => r == Err::<(), ErrorKind>(
                    ErrorKind::ManifestUnreadable,
                ) && final(ctx)@ == old(ctx)@,
                ManifestReply::Invalid => r == Err::<(), ErrorKind>(ErrorKind::ManifestInvalid)
                    && final(ctx)@ == old(ctx)@,
                ManifestReply::Parsed(j) => match manifest_command(*j, name@) {
                    Some(c) => r is Ok && final(ctx)@ == old(ctx)@.update(
                        0,
                        frame_set(old(ctx)@[0], name@, Val::Foreign(c)),
                    ) && frame_put(
                        old(ctx)@[0],
                        final(ctx)@[0],
                        name@,
                        Val::Foreign(c),
                    ) && forall|i: int|
                        0 < i < old(ctx)@.len() ==> #[trigger] final(ctx)@[i] == old(ctx)@[i],
                    None => r == Err::<(), ErrorKind>(ErrorKind::InterfaceEntry) && final(ctx)@
                        == old(ctx)@,
                },
            },
    {
        match reply {
            ManifestReply::Unreadable => Err(ErrorKind::ManifestUnreadable),
            ManifestReply::Invalid => Err(ErrorKind::ManifestInvalid),
            ManifestReply::Parsed(j) => match FFI::interface_command(j, name) {
                Ok(cmd) => {
                    ctx.declare_global(name.clone(), Value::SamForeignFunction(ForeignFunction { cmd }));
                    Ok(())
                },
                Err(e) => Err(e),
            },
        }
    }

    /// The command line that runs foreign function `f` on `args`: its
    /// template, then each argument's text after a space.
    pub fn command_line(f: &ForeignFunction, args: &Vec<Value>) -> (r: String)
        ensures
            r@ == command_text(f.cmd@, texts_of(args@)),
    {
        let mut out = f.cmd.clone();
        out.append(" ");
        proof {
            reveal_strlit(" ");
            assert(out@ =~= command_text(f.cmd@, texts_of(args@).subrange(0, 0)));
        }
        let mut i: usize = 0;
        while i < args.len()
            invariant
                i <= args.len(),
                out@ == command_text(f.cmd@, texts_of(args@).subrange(0, i as int)),
            decreases args.len() - i,
        {
            let t = args[i].to_text();
            if i > 0 {
                out.append(" ");
            }
            out.append(t.as_str());
            proof {
                reveal_strlit(" ");
                let p = texts_of(args@).subrange(0, i + 1);
                assert(p.drop_last() =~= texts_of(args@).subrange(0, i as int));
                assert(p.last() == text_of(args@[i as int]@));
                assert(out@ =~= command_text(f.cmd@, p));
            }
            i += 1;
        }
        assert(texts_of(args@).subrange(0, args.len() as int) =~= texts_of(args@));
        out
    }

    /// The result of a foreign function: its output converted to a value.
    pub fn call(reply: &ForeignReply) -> (r: Result<Value, ErrorKind>)
        ensures
            match reply {
                ForeignReply::SpawnFailed => r == Err::<Value, ErrorKind>(ErrorKind::SpawnFailed),
                ForeignReply::NotJson => r == Err::<Value, ErrorKind>(ErrorKind::ForeignOutput),
                ForeignReply::Parsed(j) => r matches Ok(v) && v@ == json_val(*j),
            },
    {
        match reply {
            ForeignReply::SpawnFailed => Err(ErrorKind::SpawnFailed),
            ForeignReply::NotJson => Err(ErrorKind::ForeignOutput),
            ForeignReply::Parsed(j) => Ok(FFI::json_to_value(j)),
        }
    }

    /// Converts JSON to a value: null to `Undefined`, a boolean to 0 or 1,
    /// numbers, strings, arrays and objects to their like.
    pub fn json_to_value(v: &Json) -> (r: Value)
        ensures
            r@ == json_val(*v),
        decreases v,
    {
        match v {
            Json::Null => Value::Undefined,
            Json::Bool(b) => Value::from(*b),
            Json::Int(i) => Value::SamNumber(Number::SamInt(*i)),
            Json::Float(f) => Value::SamNumber(Number::SamFloat(*f)),
            Json::Str(s) => Value::SamString(s.clone()),
            Json::Array(a) => {
                let mut out: Vec<Value> = Vec::new();
                let mut i: usize = 0;
                while i < a.len()
                    invariant
                        i <= a.len(),
                        *v is Array,
                        v->Array_0 == *a,
                        out.len() == i,
                        forall|j: int| 0 <= j < i ==> out[j]@ == json_val(a[j]),
                    decreases a.len() - i,
                {
                    proof {
                        vstd::std_specs::vec::axiom_vec_index_decreases(*a, i as int);
                    }
                    out.push(FFI::json_to_value(&a[i]));
                    i += 1;
                }
                let r = Value::SamArray(out);
                assert(r@->Arr_0 =~= json_val(*v)->Arr_0);
                r
            },
            Json::Object(e) => {
                let mut out: Vec<(String, Value)> = Vec::new();
                let mut i: usize = 0;
                while i < e.len()
                    invariant
                        i <= e.len(),
                        *v is Object,
                        v->Object_0 == *e,
                        out.len() == i,
                        forall|j: int|
                            0 <= j < i ==> out[j].0@ == e[j].0@ && out[j].1@ == json_val(e[j].1),
                    decreases e.len() - i,
                {
                    proof {
                        vstd::std_specs::vec::axiom_vec_index_decreases(*e, i as int);
                        assert(decreases_to!(e[i as int] => e[i as int].1));
                    }
                    let k = e[i].0.clone();
                    let x = FFI::json_to_value(&e[i].1);
                    out.push((k, x));
                    i += 1;
                }
                let r = Value::SamObject(out);
                assert(r@->Obj_0 =~= json_val(*v)->Obj_0);
                r
            },
        }
    }
}

} // verus!
