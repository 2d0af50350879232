use sam::error::ErrorKind;
use sam::evaluate::{evaluate, Outcome};
use sam::ffi::{ForeignReply, Json, ManifestReply, Reply, Request, ShellReply};
use sam::syntax::{FieldName, NodeKind, SyntaxTree};
use sam::value::{Number, Value};

/// A small reader for the language, building trees of the shape the
/// evaluator reads.
struct Reader {
    src: Vec<char>,
    pos: usize,
    tree: SyntaxTree,
}

impl Reader {
    fn new(text: &str) -> Reader {
        let src: Vec<char> = text.chars().collect();
        Reader { tree: SyntaxTree::new(src.clone()), src, pos: 0 }
    }

    fn skip(&mut self) {
        while self.pos < self.src.len() && self.src[self.pos].is_whitespace() {
            self.pos += 1;
        }
    }

    fn peek(&mut self) -> Option<char> {
        self.skip();
        self.src.get(self.pos).copied()
    }

    fn looking_at(&mut self, s: &str) -> bool {
        self.skip();
        let cs: Vec<char> = s.chars().collect();
        self.src.len() >= self.pos + cs.len() && self.src[self.pos..self.pos + cs.len()] == cs[..]
    }

    fn keyword(&mut self, s: &str) -> bool {
        if self.looking_at(s) {
            let after = self.src.get(self.pos + s.len()).copied();
            if !after.map_or(false, |c| c.is_alphanumeric() || c == '_') {
                return true;
            }
        }
        false
    }

    fn expect(&mut self, s: &str) -> (usize, usize) {
        assert!(self.looking_at(s), "expected {} at {}", s, self.pos);
        let start = self.pos;
        self.pos += s.chars().count();
        (start, self.pos)
    }

    fn node(&mut self, kind: NodeKind, start: usize, end: usize) -> usize {
        self.tree.push_node(kind, true, start, end)
    }

    fn token(&mut self, parent: usize, s: &str) {
        let (a, b) = self.expect(s);
        let t = self.tree.push_node(NodeKind::Other, false, a, b);
        self.tree.attach(parent, t, None);
    }

    fn set_end(&mut self, i: usize) {
        self.tree.nodes[i].end = self.pos;
    }

    fn program(mut self) -> SyntaxTree {
        let root = self.node(NodeKind::SourceFile, 0, self.src.len());
        if self.keyword("interfaces") {
            let start = self.pos;
            let block = self.node(NodeKind::Interfaces, start, start);
            self.tree.attach(root, block, None);
            self.token(block, "interfaces");
            self.token(block, "{");
            while self.keyword("interface") {
                let s = self.pos;
                let it = self.node(NodeKind::Interface, s, s);
                self.tree.attach(block, it, None);
                self.token(it, "interface");
                let path = self.string();
                self.tree.attach(it, path, Some(FieldName::Path));
                let name = self.identifier();
                self.tree.attach(it, name, Some(FieldName::Module));
                self.token(it, ";");
                self.set_end(it);
            }
            self.token(block, "}");
            self.set_end(block);
        }
        while self.peek().is_some() {
            let s = self.statement();
            self.tree.attach(root, s, None);
        }
        self.tree
    }

    fn statement(&mut self) -> usize {
        self.skip();
        let start = self.pos;
        if self.keyword("let") {
            let d = self.node(NodeKind::VariableDeclaration, start, start);
            self.token(d, "let");
            loop {
                let s = self.pos;
                let decl = self.node(NodeKind::VariableDeclarator, s, s);
                self.tree.attach(d, decl, None);
                let name = self.identifier();
                self.tree.attach(decl, name, Some(FieldName::Variable));
                if self.looking_at("=") && !self.looking_at("==") {
                    self.token(decl, "=");
                    let v = self.expression();
                    self.tree.attach(decl, v, Some(FieldName::Value));
                }
                self.set_end(decl);
                if self.looking_at(",") {
                    self.token(d, ",");
                } else {
                    break;
                }
            }
            self.end_statement(d);
            return d;
        }
        if self.keyword("return") {
            let r = self.node(NodeKind::ReturnStatement, start, start);
            self.token(r, "return");
            if !self.looking_at(";") && !self.looking_at("}") {
                let v = self.expression();
                self.tree.attach(r, v, Some(FieldName::Value));
            }
            self.end_statement(r);
            return r;
        }
        if self.looking_at("{") {
            return self.block();
        }
        let save = self.pos;
        if self.peek().map_or(false, |c| c.is_alphabetic()) {
            let mut p = self.pos;
            while p < self.src.len() && (self.src[p].is_alphanumeric() || self.src[p] == '_') {
                p += 1;
            }
            while p < self.src.len() && self.src[p].is_whitespace() {
                p += 1;
            }
            if p < self.src.len() && self.src[p] == '=' && self.src.get(p + 1) != Some(&'=') {
                let a = self.node(NodeKind::Assignment, start, start);
                let lhs = self.identifier();
                self.tree.attach(a, lhs, Some(FieldName::Lhs));
                self.token(a, "=");
                let rhs = self.expression();
                self.tree.attach(a, rhs, Some(FieldName::Rhs));
                self.end_statement(a);
                return a;
            }
        }
        self.pos = save;
        let e = self.node(NodeKind::ExpressionStatement, start, start);
        let x = self.expression();
        self.tree.attach(e, x, None);
        self.end_statement(e);
        e
    }

    fn end_statement(&mut self, n: usize) {
        if self.looking_at(";") {
            self.token(n, ";");
        }
        self.set_end(n);
    }

    fn block(&mut self) -> usize {
        self.skip();
        let b = self.node(NodeKind::StatementBlock, self.pos, self.pos);
        self.token(b, "{");
        while !self.looking_at("}") {
            let s = self.statement();
            self.tree.attach(b, s, None);
        }
        self.token(b, "}");
        self.set_end(b);
        b
    }

    fn expression(&mut self) -> usize {
        self.binary(0)
    }

    fn binary(&mut self, level: usize) -> usize {
        let ops: [&[&str]; 6] = [
            &["||"],
            &["&&"],
            &["==", "!="],
            &["<=", ">=", "<", ">"],
            &["+", "-"],
            &["*", "/", "%"],
        ];
        if level == ops.len() {
            return self.postfix();
        }
        let mut left = self.binary(level + 1);
        loop {
            let found = ops[level].iter().find(|o| self.looking_at(o)).map(|o| o.to_string());
            let op = match found {
                Some(op) => op,
                None => return left,
            };
            let start = self.tree.nodes[left].start;
            // The new node must come before its children in the arena, so the
            // left operand is copied under it.
            let b = self.node(NodeKind::BinaryExpression, start, start);
            let l = self.copy_subtree(left);
            self.tree.attach(b, l, Some(FieldName::Left));
            self.token(b, &op);
            let r = self.binary(level + 1);
            self.tree.attach(b, r, Some(FieldName::Right));
            self.set_end(b);
            left = b;
        }
    }

    fn copy_subtree(&mut self, i: usize) -> usize {
        let n = self.tree.nodes[i].clone();
        let c = self.tree.push_node(n.kind, n.named, n.start, n.end);
        for child in n.children.iter() {
            let field = n.fields.iter().find(|(_, x)| x == child).map(|(f, _)| *f);
            let copy = self.copy_subtree(*child);
            self.tree.attach(c, copy, field);
        }
        c
    }

    fn postfix(&mut self) -> usize {
        let mut e = self.primary();
        loop {
            if self.looking_at("(") {
                let start = self.tree.nodes[e].start;
                let call = self.node(NodeKind::CallExpression, start, start);
                let f = self.copy_subtree(e);
                self.tree.attach(call, f, Some(FieldName::Function));
                let args = self.node(NodeKind::Arguments, self.pos, self.pos);
                self.tree.attach(call, args, Some(FieldName::Arguments));
                self.token(args, "(");
                while !self.looking_at(")") {
                    let a = self.expression();
                    self.tree.attach(args, a, None);
                    if self.looking_at(",") {
                        self.token(args, ",");
                    }
                }
                self.token(args, ")");
                self.set_end(args);
                self.set_end(call);
                e = call;
            } else if self.looking_at(".") {
                let start = self.tree.nodes[e].start;
                let n = self.node(NodeKind::NestedIdentifier, start, start);
                let p = self.copy_subtree(e);
                self.tree.attach(n, p, Some(FieldName::Parent));
                self.token(n, ".");
                let name = self.identifier();
                self.tree.attach(n, name, Some(FieldName::Name));
                self.set_end(n);
                e = n;
            } else {
                return e;
            }
        }
    }

    fn is_lambda(&mut self) -> bool {
        self.skip();
        let mut p = self.pos + 1;
        let mut depth = 1;
        while p < self.src.len() && depth > 0 {
            match self.src[p] {
                '(' => depth += 1,
                ')' => depth -= 1,
                _ => {}
            }
            p += 1;
        }
        while p < self.src.len() && self.src[p].is_whitespace() {
            p += 1;
        }
        p + 1 < self.src.len() && self.src[p] == '=' && self.src[p + 1] == '>'
    }

    fn primary(&mut self) -> usize {
        let c = self.peek().expect("an expression");
        let start = self.pos;
        if c == '(' && self.is_lambda() {
            let l = self.node(NodeKind::LambdaExpression, start, start);
            let params = self.node(NodeKind::FormalParameters, start, start);
            self.tree.attach(l, params, Some(FieldName::Parameters));
            self.token(params, "(");
            while !self.looking_at(")") {
                let p = self.identifier();
                self.tree.attach(params, p, None);
                if self.looking_at(",") {
                    self.token(params, ",");
                }
            }
            self.token(params, ")");
            self.set_end(params);
            self.token(l, "=>");
            let body = self.block();
            self.tree.attach(l, body, Some(FieldName::Body));
            self.set_end(l);
            return l;
        }
        if c == '(' {
            self.expect("(");
            let e = self.expression();
            self.expect(")");
            return e;
        }
        if c == '[' {
            let a = self.node(NodeKind::ArrayExpression, start, start);
            self.token(a, "[");
            while !self.looking_at("]") {
                let x = self.expression();
                self.tree.attach(a, x, None);
                if self.looking_at(",") {
                    self.token(a, ",");
                }
            }
            self.token(a, "]");
            self.set_end(a);
            return a;
        }
        if self.keyword("if") {
            return self.if_expression();
        }
        if c.is_ascii_digit() {
            let lit = self.node(NodeKind::Literal, start, start);
            let num = self.node(NodeKind::Number, start, start);
            self.tree.attach(lit, num, None);
            while self.pos < self.src.len() && (self.src[self.pos].is_ascii_digit() || self.src[self.pos] == '.') {
                self.pos += 1;
            }
            self.set_end(num);
            self.set_end(lit);
            return lit;
        }
        if c == '\'' || c == '"' {
            let lit = self.node(NodeKind::Literal, start, start);
            let s = self.string();
            self.tree.attach(lit, s, None);
            self.set_end(lit);
            return lit;
        }
        self.identifier()
    }

    fn if_expression(&mut self) -> usize {
        let i = self.node(NodeKind::IfExpression, self.pos, self.pos);
        self.token(i, "if");
        self.expect("(");
        let c = self.expression();
        self.tree.attach(i, c, Some(FieldName::Condition));
        self.expect(")");
        let b = self.block();
        self.tree.attach(i, b, Some(FieldName::Consequence));
        if self.keyword("else") {
            self.token(i, "else");
            let e = if self.keyword("if") { self.if_expression() } else { self.block() };
            self.tree.attach(i, e, Some(FieldName::Else));
        }
        self.set_end(i);
        i
    }

    fn string(&mut self) -> usize {
        self.skip();
        let quote = self.src[self.pos];
        let s = self.node(NodeKind::String, self.pos, self.pos);
        self.token(s, &quote.to_string());
        while self.src[self.pos] != quote {
            let start = self.pos;
            if self.src[self.pos] == '\\' {
                self.pos += 2;
                let e = self.node(NodeKind::EscapeSequence, start, self.pos);
                self.tree.attach(s, e, None);
            } else {
                while self.src[self.pos] != quote && self.src[self.pos] != '\\' {
                    self.pos += 1;
                }
                let f = self.node(NodeKind::StringFragment, start, self.pos);
                self.tree.attach(s, f, None);
            }
        }
        self.token(s, &quote.to_string());
        self.set_end(s);
        s
    }

    fn identifier(&mut self) -> usize {
        self.skip();
        let start = self.pos;
        while self.pos < self.src.len() && (self.src[self.pos].is_alphanumeric() || self.src[self.pos] == '_') {
            self.pos += 1;
        }
        assert!(self.pos > start, "expected an identifier at {}", start);
        self.node(NodeKind::Identifier, start, self.pos)
    }
}

fn parse(text: &str) -> SyntaxTree {
    Reader::new(text).program()
}

fn run(text: &str, replies: Vec<Reply>) -> Outcome {
    let tree = parse(text);
    assert!(tree.check());
    evaluate(&tree, &replies)
}

fn global(outcome: &Outcome, name: &str) -> Value {
    match outcome {
        Outcome::Finished(ctx) => {
            assert_eq!(ctx.depth(), 1);
            ctx.lookup(&name.to_string()).expect("a binding")
        }
        other => panic!("evaluation did not finish: {:?}", other),
    }
}

fn global_int(outcome: &Outcome, name: &str) -> i64 {
    match global(outcome, name) {
        Value::SamNumber(Number::SamInt(i)) => i,
        other => panic!("expected an integer, got {:?}", other),
    }
}

fn failure(outcome: &Outcome) -> ErrorKind {
    match outcome {
        Outcome::Failed(e) => e.kind,
        other => panic!("expected a failure, got {:?}", other),
    }
}

#[test]
fn increment_after_declaration() {
    let o = run("let x = 5; x = x + 1;", vec![]);
    assert_eq!(global_int(&o, "x"), 6);
}

#[test]
fn function_returns_constant() {
    let o = run("let f = () => { return 42; }; let b = f();", vec![]);
    assert_eq!(global_int(&o, "b"), 42);
}

#[test]
fn return_escapes_if_block() {
    let o = run("let f = () => { if (4 == 4) { return 3 }; }; let b = f();", vec![]);
    assert_eq!(global_int(&o, "b"), 3);
}

#[test]
fn function_with_parameters() {
    let o = run("let a = (x, y) => { return x + 5; }; let b = a(4, 3);", vec![]);
    assert_eq!(global_int(&o, "b"), 9);
}

#[test]
fn arity_mismatch_fails() {
    let o = run("let a = (x, y) => { return x + 5; }; let b = a(4);", vec![]);
    assert_eq!(failure(&o), ErrorKind::ArityMismatch);
}

#[test]
fn string_concatenation() {
    let o = run("let a = 'hello' + ' world';", vec![]);
    match global(&o, "a") {
        Value::SamString(s) => assert_eq!(s, "hello world"),
        other => panic!("unexpected {:?}", other),
    }
}

#[test]
fn escape_sequences_decode() {
    let o = run("let a = 'hello\\nworld';", vec![]);
    match global(&o, "a") {
        Value::SamString(s) => assert_eq!(s, "hello\nworld"),
        other => panic!("unexpected {:?}", other),
    }
}

#[test]
fn interface_call_goes_through_manifest_and_command() {
    let text = "interfaces { interface 'm.json' bar; } let r = bar();";
    match run(text, vec![]) {
        Outcome::Needs(Request::ReadManifest { path }) => assert_eq!(path, "m.json"),
        other => panic!("unexpected {:?}", other),
    }
    let manifest = || {
        Reply::Manifest(ManifestReply::Parsed(Json::Object(vec![(
            "bar".to_string(),
            Json::Str("echo 42".to_string()),
        )])))
    };
    match run(text, vec![manifest()]) {
        Outcome::Needs(Request::RunForeign { command }) => assert_eq!(command, "echo 42 "),
        other => panic!("unexpected {:?}", other),
    }
    let o = run(text, vec![manifest(), Reply::Foreign(ForeignReply::Parsed(Json::Int(42)))]);
    assert_eq!(global_int(&o, "r"), 42);
    let o = run(text, vec![manifest(), Reply::Foreign(ForeignReply::NotJson)]);
    assert_eq!(failure(&o), ErrorKind::ForeignOutput);
}

#[test]
fn missing_manifest_entry_fails() {
    let text = "interfaces { interface 'm.json' baz; }";
    let reply = Reply::Manifest(ManifestReply::Parsed(Json::Object(vec![(
        "bar".to_string(),
        Json::Str("echo 42".to_string()),
    )])));
    assert_eq!(failure(&run(text, vec![reply])), ErrorKind::InterfaceEntry);
    let reply = Reply::Manifest(ManifestReply::Unreadable);
    assert_eq!(failure(&run(text, vec![reply])), ErrorKind::ManifestUnreadable);
}

#[test]
fn undeclared_reference_fails() {
    assert_eq!(failure(&run("y;", vec![])), ErrorKind::UnboundVariable);
    assert_eq!(failure(&run("let a = y + 1;", vec![])), ErrorKind::UnboundVariable);
}

#[test]
fn undeclared_assignment_fails() {
    assert_eq!(failure(&run("y = 1;", vec![])), ErrorKind::UndefinedAssignment);
}

#[test]
fn nested_block_shadowing() {
    let o = run("let x = 1; { let x = 2; x = 3; }", vec![]);
    assert_eq!(global_int(&o, "x"), 1);
    let o = run("let x = 1; { x = 3; }", vec![]);
    assert_eq!(global_int(&o, "x"), 3);
}

#[test]
fn top_level_return_fails() {
    assert_eq!(failure(&run("return 1;", vec![])), ErrorKind::ReturnOutsideFunction);
}

#[test]
fn declaration_without_initializer_is_undefined() {
    let o = run("let x;", vec![]);
    assert!(matches!(global(&o, "x"), Value::Undefined));
}

#[test]
fn if_else_chains() {
    let text = "let f = (n) => { if (n < 0) { return 0 - 1; } else if (n == 0) { return 0; } else { return 1; } }; let a = f(0 - 5); let b = f(0); let c = f(7);";
    let o = run(text, vec![]);
    assert_eq!(global_int(&o, "a"), -1);
    assert_eq!(global_int(&o, "b"), 0);
    assert_eq!(global_int(&o, "c"), 1);
}

#[test]
fn if_without_else_falls_through() {
    let o = run("let f = () => { if (0) { return 1; } }; let b = f();", vec![]);
    assert!(matches!(global(&o, "b"), Value::Undefined));
}

#[test]
fn float_condition_fails() {
    assert_eq!(failure(&run("if (1.5) { }", vec![])), ErrorKind::ConditionNotInt);
}

#[test]
fn float_literals_and_division() {
    let o = run("let a = 7 / 2; let b = 1.5 + 1; let c = 3 == 3.0; let d = 7 % 0;", vec![]);
    match global(&o, "a") {
        Value::SamNumber(Number::SamFloat(f)) => assert_eq!(f64::from_bits(f.to_bits()), 3.5),
        other => panic!("unexpected {:?}", other),
    }
    match global(&o, "b") {
        Value::SamNumber(Number::SamFloat(f)) => assert_eq!(f64::from_bits(f.to_bits()), 2.5),
        other => panic!("unexpected {:?}", other),
    }
    assert_eq!(global_int(&o, "c"), 1);
    assert!(matches!(global(&o, "d"), Value::Undefined));
}

#[test]
fn arrays_collect_elements() {
    let o = run("let a = [1, 2 + 3, 'x'];", vec![]);
    match global(&o, "a") {
        Value::SamArray(items) => {
            assert_eq!(items.len(), 3);
            assert!(matches!(items[1], Value::SamNumber(Number::SamInt(5))));
        }
        other => panic!("unexpected {:?}", other),
    }
}

#[test]
fn recursion_runs_until_depth_limit() {
    let o = run("let f = (n) => { if (n == 0) { return 0; } return n + f(n - 1); }; let s = f(10);", vec![]);
    assert_eq!(global_int(&o, "s"), 55);
    let o = run("let g = () => { return g(); }; let s = g();", vec![]);
    assert_eq!(failure(&o), ErrorKind::CallDepthExceeded);
}

#[test]
fn shell_fallback_runs_a_program() {
    let text = "let r = ls('-a', 3); let s = r.status; let o = r.stdout;";
    match run(text, vec![]) {
        Outcome::Needs(Request::RunShell { program, args }) => {
            assert_eq!(program, "ls");
            assert_eq!(args, vec!["-a".to_string(), "3".to_string()]);
        }
        other => panic!("unexpected {:?}", other),
    }
    let reply = Reply::Shell(ShellReply::Finished {
        stdout: "a\n".to_string(),
        stderr: String::new(),
        status: Some(2),
    });
    let o = run(text, vec![reply]);
    assert_eq!(global_int(&o, "s"), 2);
    match global(&o, "o") {
        Value::SamString(s) => assert_eq!(s, "a\n"),
        other => panic!("unexpected {:?}", other),
    }
    let o = run(text, vec![Reply::Shell(ShellReply::SpawnFailed)]);
    assert_eq!(failure(&o), ErrorKind::SpawnFailed);
}

#[test]
fn attribute_of_non_object_fails() {
    assert_eq!(failure(&run("let a = 1; let b = a.x;", vec![])), ErrorKind::NotAttributable);
}

#[test]
fn comparing_strings_fails() {
    assert_eq!(failure(&run("let a = 'a' < 'b';", vec![])), ErrorKind::Incomparable);
}

#[test]
fn oversized_integer_literal_fails() {
    assert_eq!(failure(&run("let a = 99999999999999999999;", vec![])), ErrorKind::InvalidNumber);
    let o = run("let a = 9223372036854775807;", vec![]);
    assert_eq!(global_int(&o, "a"), i64::MAX);
}

#[test]
fn return_in_value_position_fails() {
    let o = run("let f = () => { let a = if (1) { return 2; }; return 3; }; let b = f();", vec![]);
    assert_eq!(failure(&o), ErrorKind::ReturnInExpression);
}

#[test]
fn calling_a_number_fails() {
    assert_eq!(failure(&run("let a = (1)(2);", vec![])), ErrorKind::NotCallable);
}

#[test]
fn reply_of_the_wrong_sort_fails() {
    let text = "interfaces { interface 'm.json' bar; }";
    let reply = Reply::Shell(ShellReply::SpawnFailed);
    assert_eq!(failure(&run(text, vec![reply])), ErrorKind::ReplyMismatch);
}

#[test]
fn unknown_operator_fails() {
    let text = "1 ^ 2";
    let mut tree = SyntaxTree::new(text.chars().collect());
    let root = tree.push_node(NodeKind::SourceFile, true, 0, 5);
    let stmt = tree.push_node(NodeKind::ExpressionStatement, true, 0, 5);
    tree.attach(root, stmt, None);
    let bin = tree.push_node(NodeKind::BinaryExpression, true, 0, 5);
    tree.attach(stmt, bin, None);
    let left = tree.push_node(NodeKind::Number, true, 0, 1);
    tree.attach(bin, left, Some(FieldName::Left));
    let op = tree.push_node(NodeKind::Other, false, 2, 3);
    tree.attach(bin, op, None);
    let right = tree.push_node(NodeKind::Number, true, 4, 5);
    tree.attach(bin, right, Some(FieldName::Right));
    assert!(tree.check());
    assert_eq!(failure(&evaluate(&tree, &vec![])), ErrorKind::UnknownOperator);
}

#[test]
fn malformed_trees_are_refused() {
    let mut tree = SyntaxTree::new("x".chars().collect());
    let root = tree.push_node(NodeKind::Identifier, true, 0, 1);
    assert_eq!(root, 0);
    assert_eq!(failure(&evaluate(&tree, &vec![])), ErrorKind::UnexpectedNode);
    let mut tree = SyntaxTree::new("x".chars().collect());
    let root = tree.push_node(NodeKind::SourceFile, true, 0, 1);
    tree.attach(root, root, None);
    assert!(!tree.check());
    assert_eq!(failure(&evaluate(&tree, &vec![])), ErrorKind::UnexpectedNode);
}
