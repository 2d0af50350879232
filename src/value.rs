//! The tagged runtime values of the language and their operators.
use crate::error::ErrorKind;
use crate::float::{
    add_floats, compare_floats, div_floats, float_difference, float_order, float_product,
    float_quotient, float_rem_euclid, float_sum, float_to_decimal, from_int, int_to_float,
    is_zero_bits, mul_floats, sub_floats, to_decimal, Float,
};
use std::cmp::Ordering;
use vstd::prelude::*;

verus! {

/// A number: a 64-bit signed integer or a binary64 float.
#[derive(Clone, Copy, Debug)]
pub enum Number {
    SamInt(i64),
    SamFloat(Float),
}

/// A user function: the source range of its body and its parameter names.
#[derive(Clone, Debug)]
pub struct Function {
    pub start: usize,
    pub end: usize,
    pub params: Vec<String>,
}

/// A foreign function: the shell command template it runs.
#[derive(Clone, Debug)]
pub struct ForeignFunction {
    pub cmd: String,
}

/// A runtime value.
#[derive(Debug)]
pub enum Value {
    SamNumber(Number),
    SamString(String),
    SamArray(Vec<Value>),
    SamObject(Vec<(String, Value)>),
    SamFunction(Function),
    SamForeignFunction(ForeignFunction),
    Undefined,
}

/// The mathematical model of a value.
pub enum Val {
    Num(Number),
    Str(Seq<char>),
    Arr(Seq<Val>),
    Obj(Seq<(Seq<char>, Val)>),
    Func(nat, nat, Seq<Seq<char>>),
    Foreign(Seq<char>),
    Undef,
}

pub open spec fn strings_view(v: Seq<String>) -> Seq<Seq<char>> {
    v.map_values(|s: String| s@)
}

impl View for Value {
    type V = Val;

    open spec fn view(&self) -> Val {
        value_model(*self)
    }
}

/// The model of a value.
pub open spec fn value_model(v: Value) -> Val
    decreases v,
{
    match v {
        Value::SamNumber(n) => Val::Num(n),
        Value::SamString(s) => Val::Str(s@),
        Value::SamArray(a) => Val::Arr(
            Seq::new(
                a@.len(),
                |i: int|
                    if 0 <= i < a@.len() {
                        value_model(a[i])
                    } else {
                        Val::Undef
                    },
            ),
        ),
        Value::SamObject(e) => Val::Obj(
            Seq::new(
                e@.len(),
                |i: int|
                    if 0 <= i < e@.len() {
                        (e[i].0@, value_model(e[i].1))
                    } else {
                        (Seq::empty(), Val::Undef)
                    },
            ),
        ),
        Value::SamFunction(f) => Val::Func(f.start as nat, f.end as nat, strings_view(f.params@)),
        Value::SamForeignFunction(f) => Val::Foreign(f.cmd@),
        Value::Undefined => Val::Undef,
    }
}

/// The value bound to `k` by the first entry that has it.
pub open spec fn entries_get(e: Seq<(Seq<char>, Val)>, k: Seq<char>) -> Option<Val>
    decreases e.len(),
{
    if e.len() == 0 {
        None
    } else if e[0].0 == k {
        Some(e[0].1)
    } else {
        entries_get(e.drop_first(), k)
    }
}

/// The float a number is promoted to.
pub open spec fn as_float(n: Number) -> u64 {
    match n {
        Number::SamInt(i) => int_to_float(i),
        Number::SamFloat(f) => f.bits,
    }
}

pub open spec fn float_number(bits: u64) -> Number {
    Number::SamFloat(Float { bits })
}

pub open spec fn number_add(a: Number, b: Number) -> Number {
    match (a, b) {
        (Number::SamInt(x), Number::SamInt(y)) => Number::SamInt(x.wrapping_add(y)),
        _ => float_number(float_sum(as_float(a), as_float(b))),
    }
}

pub open spec fn number_sub(a: Number, b: Number) -> Number {
    match (a, b) {
        (Number::SamInt(x), Number::SamInt(y)) => Number::SamInt(x.wrapping_sub(y)),
        _ => float_number(float_difference(as_float(a), as_float(b))),
    }
}

pub open spec fn number_mul(a: Number, b: Number) -> Number {
    match (a, b) {
        (Number::SamInt(x), Number::SamInt(y)) => Number::SamInt(x.wrapping_mul(y)),
        _ => float_number(float_product(as_float(a), as_float(b))),
    }
}

/// Division always yields a float.
pub open spec fn number_div(a: Number, b: Number) -> Number {
    float_number(float_quotient(as_float(a), as_float(b)))
}

/// The remainder of truncating division (sign of the dividend).
pub open spec fn trunc_rem(a: int, b: int) -> int {
    let m = if b < 0 {
        -b
    } else {
        b
    };
    if a >= 0 {
        a % m
    } else {
        -((-a) % m)
    }
}

pub open spec fn number_rem(a: Number, b: Number) -> Number {
    match (a, b) {
        (Number::SamInt(x), Number::SamInt(y)) => Number::SamInt(trunc_rem(x as int, y as int) as i64),
        _ => float_number(float_rem_euclid(as_float(a), as_float(b))),
    }
}

/// Whether a number is numerically zero (integer 0, or either float zero).
pub open spec fn number_is_zero(n: Number) -> bool {
    match n {
        Number::SamInt(i) => i == 0,
        Number::SamFloat(f) => is_zero_bits(f.bits),
    }
}

/// Numbers are ordered by their promoted float values.
pub open spec fn number_order(a: Number, b: Number) -> Option<Ordering> {
    float_order(as_float(a), as_float(b))
}

pub open spec fn add_spec(a: Val, b: Val) -> Val {
    match (a, b) {
        (Val::Num(x), Val::Num(y)) => Val::Num(number_add(x, y)),
        (Val::Str(x), Val::Str(y)) => Val::Str(x + y),
        _ => Val::Undef,
    }
}

pub open spec fn sub_spec(a: Val, b: Val) -> Val {
    match (a, b) {
        (Val::Num(x), Val::Num(y)) => Val::Num(number_sub(x, y)),
        _ => Val::Undef,
    }
}

pub open spec fn mul_spec(a: Val, b: Val) -> Val {
    match (a, b) {
        (Val::Num(x), Val::Num(y)) => Val::Num(number_mul(x, y)),
        _ => Val::Undef,
    }
}

pub open spec fn div_spec(a: Val, b: Val) -> Val {
    match (a, b) {
        (Val::Num(x), Val::Num(y)) => if number_is_zero(y) {
            Val::Undef
        } else {
            Val::Num(number_div(x, y))
        },
        _ => Val::Undef,
    }
}

pub open spec fn rem_spec(a: Val, b: Val) -> Val {
    match (a, b) {
        (Val::Num(x), Val::Num(y)) => if number_is_zero(y) {
            Val::Undef
        } else {
            Val::Num(number_rem(x, y))
        },
        _ => Val::Undef,
    }
}

/// Only numbers are ordered.
pub open spec fn order_spec(a: Val, b: Val) -> Option<Ordering> {
    match (a, b) {
        (Val::Num(x), Val::Num(y)) => number_order(x, y),
        _ => None,
    }
}

/// Structural equality: numbers by promoted value, strings by content, arrays
/// elementwise, objects keywise; values of different kinds are unequal.
pub open spec fn values_equal(a: Val, b: Val) -> bool
    decreases a,
{
    match (a, b) {
        (Val::Num(x), Val::Num(y)) => number_order(x, y) == Some(Ordering::Equal),
        (Val::Str(x), Val::Str(y)) => x == y,
        (Val::Arr(x), Val::Arr(y)) => x.len() == y.len() && forall|i: int|
            0 <= i < x.len() ==> values_equal(x[i], #[trigger] y[i]),
        (Val::Obj(x), Val::Obj(y)) => x.len() == y.len() && (forall|i: int|
            0 <= i < x.len() ==> match #[trigger] entries_get(y, x[i].0) {
                Some(w) => values_equal(x[i].1, w),
                None => false,
            }) && (forall|j: int|
            0 <= j < y.len() ==> #[trigger] entries_get(x, y[j].0) is Some),
        (Val::Func(s, e, ps), Val::Func(s_, e_, qs)) => s == s_ && e == e_ && ps == qs,
        (Val::Foreign(c1), Val::Foreign(c2)) => c1 == c2,
        (Val::Undef, Val::Undef) => true,
        _ => false,
    }
}

/// The truth value of a number: nonzero is true.
pub open spec fn truth_of(n: Number) -> bool {
    !number_is_zero(n)
}

pub open spec fn bool_value(b: bool) -> Val {
    Val::Num(
        Number::SamInt(
            if b {
                1
            } else {
                0
            },
        ),
    )
}


/// The view of a list of named entries (an object's fields, a scope frame).
pub open spec fn entries_view(v: Seq<(String, Value)>) -> Seq<(Seq<char>, Val)> {
    v.map_values(|e: (String, Value)| (e.0@, e.1@))
}

pub proof fn lemma_object_view(v: Value)
    requires
        v is SamObject,
    ensures
        v@ == Val::Obj(entries_view(v->SamObject_0@)),
{
    let x = v->SamObject_0;
    let s = v@->Obj_0;
    assert(s.len() == x@.len());
    assert forall|i: int| 0 <= i < x.len() implies s[i] == entries_view(x@)[i] by {
        assert(s[i] == (x[i].0@, x[i].1@));
    }
    assert(s =~= entries_view(x@));
}

/// Skipping entries that lack the key does not change a lookup.
pub proof fn lemma_entries_get_skip(e: Seq<(Seq<char>, Val)>, k: Seq<char>, j: int)
    requires
        0 <= j <= e.len(),
        forall|i: int| 0 <= i < j ==> e[i].0 != k,
    ensures
        entries_get(e, k) == entries_get(e.subrange(j, e.len() as int), k),
    decreases j,
{
    if j == 0 {
        assert(e.subrange(0, e.len() as int) =~= e);
    } else {
        let t = e.drop_first();
        assert forall|i: int| 0 <= i < j - 1 implies t[i].0 != k by {
            assert(t[i] == e[i + 1]);
        }
        lemma_entries_get_skip(t, k, j - 1);
        assert(t.subrange(j - 1, t.len() as int) =~= e.subrange(j, e.len() as int));
    }
}

/// Decimal digit characters.
pub open spec fn digit_char(d: int) -> char {
    seq!['0', '1', '2', '3', '4', '5', '6', '7', '8', '9'][d]
}

/// The decimal text of a natural number, without leading zeros.
pub open spec fn nat_text(n: nat) -> Seq<char>
    decreases n,
{
    if n < 10 {
        seq![digit_char(n as int)]
    } else {
        nat_text(n / 10).push(digit_char((n % 10) as int))
    }
}

/// The decimal text of an integer, with a leading `-` when negative.
pub open spec fn int_text(i: int) -> Seq<char> {
    if i < 0 {
        seq!['-'] + nat_text((-i) as nat)
    } else {
        nat_text(i as nat)
    }
}

/// Texts joined by commas.
pub open spec fn join_commas(t: Seq<Seq<char>>) -> Seq<char>
    decreases t.len(),
{
    if t.len() == 0 {
        Seq::empty()
    } else if t.len() == 1 {
        t[0]
    } else {
        join_commas(t.drop_last()) + seq![','] + t.last()
    }
}

pub open spec fn number_text(n: Number) -> Seq<char> {
    match n {
        Number::SamInt(i) => int_text(i as int),
        Number::SamFloat(f) => float_to_decimal(f.bits),
    }
}

/// The renderings of the items of an array.
pub open spec fn item_texts(items: Seq<Val>) -> Seq<Seq<char>>
    decreases items,
{
    Seq::new(
        items.len(),
        |i: int|
            if 0 <= i < items.len() {
                text_of(items[i])
            } else {
                Seq::empty()
            },
    )
}

/// The textual rendering of a value, as handed to external commands.
pub open spec fn text_of(v: Val) -> Seq<char>
    decreases v,
{
    match v {
        Val::Num(n) => number_text(n),
        Val::Str(s) => s,
        Val::Arr(items) => join_commas(item_texts(items)),
        Val::Obj(_) => "[object Object]"@,
        Val::Func(_, _, _) => "[function]"@,
        Val::Foreign(_) => "[foreign function]"@,
        Val::Undef => "undefined"@,
    }
}

/// Relies on `i64`'s `Display`: decimal digits, `-` before a negative number.
#[verifier::external_body]
fn int_to_text(i: i64) -> (r: String)
    ensures
        r@ == int_text(i as int),
{
    i.to_string()
}

/// Copies a list of strings.
pub fn copy_strings(v: &Vec<String>) -> (r: Vec<String>)
    ensures
        r@ == v@,
{
    let mut out: Vec<String> = Vec::new();
    let mut i: usize = 0;
    while i < v.len()
        invariant
            i <= v.len(),
            out@ == v@.subrange(0, i as int),
        decreases v.len() - i,
    {
        out.push(v[i].clone());
        i += 1;
        assert(out@ =~= v@.subrange(0, i as int));
    }
    assert(v@.subrange(0, v.len() as int) =~= v@);
    out
}

/// The index of the first entry named `k`.
pub open spec fn first_key(e: Seq<(Seq<char>, Val)>, k: Seq<char>) -> Option<int>
    decreases e.len(),
{
    if e.len() == 0 {
        None
    } else if e[0].0 == k {
        Some(0)
    } else {
        match first_key(e.drop_first(), k) {
            Some(j) => Some(j + 1),
            None => None,
        }
    }
}

proof fn lemma_first_key(e: Seq<(Seq<char>, Val)>, k: Seq<char>, j: int)
    requires
        0 <= j <= e.len(),
        forall|i: int| 0 <= i < j ==> e[i].0 != k,
        j < e.len() ==> e[j].0 == k,
    ensures
        first_key(e, k) == if j < e.len() {
            Some(j)
        } else {
            None::<int>
        },
    decreases j,
{
    if j > 0 {
        let t = e.drop_first();
        assert forall|i: int| 0 <= i < j - 1 implies t[i].0 != k by {
            assert(t[i] == e[i + 1]);
        }
        if j < e.len() {
            assert(t[j - 1] == e[j]);
        }
        lemma_first_key(t, k, j - 1);
    }
}

/// The index of the first entry named `key`.
pub fn find_entry(entries: &Vec<(String, Value)>, key: &String) -> (r: Option<usize>)
    ensures
        match r {
            Some(j) => j < entries.len() && entries[j as int].0@ == key@ && entries_get(
                entries_view(entries@),
                key@,
            ) == Some(entries[j as int].1@) && forall|i: int|
                0 <= i < j ==> entries[i].0@ != key@,
            None => entries_get(entries_view(entries@), key@) is None,
        },
        match r {
            Some(j) => first_key(entries_view(entries@), key@) == Some(j as int),
            None => first_key(entries_view(entries@), key@) is None,
        },
{
    let ghost e = entries_view(entries@);
    let mut j: usize = 0;
    while j < entries.len()
        invariant
            j <= entries.len(),
            e == entries_view(entries@),
            forall|i: int| 0 <= i < j ==> e[i].0 != key@,
        decreases entries.len() - j,
    {
        if entries[j].0 == *key {
            proof {
                assert forall|i: int| 0 <= i < j implies entries[i].0@ != key@ by {
                    assert(e[i].0 == entries[i].0@);
                }
                lemma_entries_get_skip(e, key@, j as int);
                assert(e.subrange(j as int, e.len() as int)[0] == e[j as int]);
                lemma_first_key(e, key@, j as int);
            }
            return Some(j);
        }
        j += 1;
    }
    proof {
        lemma_entries_get_skip(e, key@, j as int);
        lemma_first_key(e, key@, j as int);
    }
    None
}

impl Number {
    /// The float this number is promoted to.
    pub fn as_f64(self) -> (r: Float)
        ensures
            r.bits == as_float(self),
    {
        match self {
            Number::SamInt(i) => from_int(i),
            Number::SamFloat(f) => f,
        }
    }

    pub fn add(self, rhs: Number) -> (r: Number)
        ensures
            r == number_add(self, rhs),
    {
        match (self, rhs) {
            (Number::SamInt(a), Number::SamInt(b)) => Number::SamInt(a.wrapping_add(b)),
            (a, b) => Number::SamFloat(add_floats(a.as_f64(), b.as_f64())),
        }
    }

    pub fn sub(self, rhs: Number) -> (r: Number)
        ensures
            r == number_sub(self, rhs),
    {
        match (self, rhs) {
            (Number::SamInt(a), Number::SamInt(b)) => Number::SamInt(a.wrapping_sub(b)),
            (a, b) => Number::SamFloat(sub_floats(a.as_f64(), b.as_f64())),
        }
    }

    pub fn mul(self, rhs: Number) -> (r: Number)
        ensures
            r == number_mul(self, rhs),
    {
        match (self, rhs) {
            (Number::SamInt(a), Number::SamInt(b)) => Number::SamInt(a.wrapping_mul(b)),
            (a, b) => Number::SamFloat(mul_floats(a.as_f64(), b.as_f64())),
        }
    }

    pub fn div(self, rhs: Number) -> (r: Number)
        ensures
            r == number_div(self, rhs),
    {
        Number::SamFloat(div_floats(self.as_f64(), rhs.as_f64()))
    }

    pub fn rem(self, rhs: Number) -> (r: Number)
        requires
            !number_is_zero(rhs),
        ensures
            r == number_rem(self, rhs),
    {
        match (self, rhs) {
            (Number::SamInt(a), Number::SamInt(b)) => {
                let m: u64 = if b < 0 {
                    (0i128 - b as i128) as u64
                } else {
                    b as u64
                };
                let r: i64 = if a >= 0 {
                    ((a as u64) % m) as i64
                } else {
                    let n: u64 = (0i128 - a as i128) as u64;
                    0 - ((n % m) as i64)
                };
                Number::SamInt(r)
            },
            (a, b) => Number::SamFloat(a.as_f64().rem_euclid(b.as_f64())),
        }
    }

    pub fn is_zero(self) -> (r: bool)
        ensures
            r == number_is_zero(self),
    {
        match self {
            Number::SamInt(i) => i == 0,
            Number::SamFloat(f) => f.is_zero(),
        }
    }

    pub fn eq(&self, other: &Number) -> (r: bool)
        ensures
            r == (number_order(*self, *other) == Some(Ordering::Equal)),
    {
        match self.partial_cmp(other) {
            Some(Ordering::Equal) => true,
            _ => false,
        }
    }

    pub fn partial_cmp(&self, other: &Number) -> (r: Option<Ordering>)
        ensures
            r == number_order(*self, *other),
    {
        compare_floats(self.as_f64(), other.as_f64())
    }
}

impl Value {

    /// A copy of this value.
    pub fn deep_copy(&self) -> (r: Value)
        ensures
            r@ == self@,
        decreases self,
    {
        match self {
            Value::SamNumber(n) => Value::SamNumber(*n),
            Value::SamString(s) => Value::SamString(s.clone()),
            Value::SamArray(a) => {
                let mut out: Vec<Value> = Vec::new();
                let mut i: usize = 0;
                while i < a.len()
                    invariant
                        i <= a.len(),
                        *self is SamArray,
                        self->SamArray_0 == *a,
                        out.len() == i,
                        forall|j: int| 0 <= j < i ==> out[j]@ == a[j]@,
                    decreases a.len() - i,
                {
                    proof {
                        vstd::std_specs::vec::axiom_vec_index_decreases(*a, i as int);
                    }
                    out.push(a[i].deep_copy());
                    i += 1;
                }
                let r = Value::SamArray(out);
                assert(r@->Arr_0 =~= self@->Arr_0);
                r
            },
            Value::SamObject(e) => {
                let mut out: Vec<(String, Value)> = Vec::new();
                let mut i: usize = 0;
                while i < e.len()
                    invariant
                        i <= e.len(),
                        *self is SamObject,
                        self->SamObject_0 == *e,
                        out.len() == i,
                        forall|j: int|
                            0 <= j < i ==> out[j].0@ == e[j].0@ && out[j].1@ == e[j].1@,
                    decreases e.len() - i,
                {
                    proof {
                        vstd::std_specs::vec::axiom_vec_index_decreases(*e, i as int);
                        assert(decreases_to!(e[i as int] => e[i as int].1));
                    }
                    let k = e[i].0.clone();
                    let v = e[i].1.deep_copy();
                    out.push((k, v));
                    i += 1;
                }
                let r = Value::SamObject(out);
                assert(r@->Obj_0 =~= self@->Obj_0);
                r
            },
            Value::SamFunction(f) => Value::SamFunction(
                Function { start: f.start, end: f.end, params: copy_strings(&f.params) },
            ),
            Value::SamForeignFunction(f) => Value::SamForeignFunction(
                ForeignFunction { cmd: f.cmd.clone() },
            ),
            Value::Undefined => Value::Undefined,
        }
    }

    /// Structural equality (see `values_equal`).
    pub fn eq(&self, other: &Value) -> (r: bool)
        ensures
            r == values_equal(self@, other@),
        decreases self,
    {
        match (self, other) {
            (Value::SamNumber(a), Value::SamNumber(b)) => a.eq(b),
            (Value::SamString(a), Value::SamString(b)) => *a == *b,
            (Value::SamArray(a), Value::SamArray(b)) => {
                if a.len() != b.len() {
                    return false;
                }
                let mut i: usize = 0;
                while i < a.len()
                    invariant
                        i <= a.len(),
                        a.len() == b.len(),
                        *self is SamArray,
                        self->SamArray_0 == *a,
                        *other is SamArray,
                        other->SamArray_0 == *b,
                        forall|j: int| 0 <= j < i ==> values_equal(a[j]@, b[j]@),
                    decreases a.len() - i,
                {
                    proof {
                        vstd::std_specs::vec::axiom_vec_index_decreases(*a, i as int);
                    }
                    if !a[i].eq(&b[i]) {
                        assert(!values_equal(self@->Arr_0[i as int], other@->Arr_0[i as int]));
                        return false;
                    }
                    i += 1;
                }
                assert(values_equal(self@, other@)) by {
                    let x = self@->Arr_0;
                    let y = other@->Arr_0;
                    assert forall|j: int| 0 <= j < x.len() implies values_equal(
                        x[j],
                        #[trigger] y[j],
                    ) by {
                        assert(x[j] == a[j]@);
                        assert(y[j] == b[j]@);
                    }
                }
                true
            },
            (Value::SamObject(a), Value::SamObject(b)) => {
                if a.len() != b.len() {
                    return false;
                }
                proof {
                    lemma_object_view(*self);
                    lemma_object_view(*other);
                }
                let mut i: usize = 0;
                while i < a.len()
                    invariant
                        i <= a.len(),
                        a.len() == b.len(),
                        *self is SamObject,
                        self->SamObject_0 == *a,
                        *other is SamObject,
                        other->SamObject_0 == *b,
                        self@ == Val::Obj(entries_view(a@)),
                        other@ == Val::Obj(entries_view(b@)),
                        forall|j: int|
                            0 <= j < i ==> match #[trigger] entries_get(
                                entries_view(b@),
                                entries_view(a@)[j].0,
                            ) {
                                Some(w) => values_equal(entries_view(a@)[j].1, w),
                                None => false,
                            },
                    decreases a.len() - i,
                {
                    proof {
                        vstd::std_specs::vec::axiom_vec_index_decreases(*a, i as int);
                        assert(decreases_to!(a[i as int] => a[i as int].1));
                    }
                    match find_entry(b, &a[i].0) {
                        None => {
                            assert(entries_view(a@)[i as int].0 == a[i as int].0@);
                            return false;
                        },
                        Some(j) => {
                            if !a[i].1.eq(&b[j].1) {
                                assert(entries_view(a@)[i as int] == (a[i as int].0@, a[i as int].1@));
                                assert(entries_view(b@)[j as int] == (b[j as int].0@, b[j as int].1@));
                                assert(!values_equal(self@, other@)) by {
                                    let x = entries_view(a@);
                                    let y = entries_view(b@);
                                    assert(entries_get(y, x[i as int].0) == Some(b[j as int].1@));
                                    assert(!values_equal(x[i as int].1, b[j as int].1@));
                                }
                                return false;
                            }
                        },
                    }
                    i += 1;
                }
                let mut j: usize = 0;
                while j < b.len()
                    invariant
                        j <= b.len(),
                        a.len() == b.len(),
                        self@ == Val::Obj(entries_view(a@)),
                        other@ == Val::Obj(entries_view(b@)),
                        forall|k: int|
                            0 <= k < a.len() ==> match #[trigger] entries_get(
                                entries_view(b@),
                                entries_view(a@)[k].0,
                            ) {
                                Some(w) => values_equal(entries_view(a@)[k].1, w),
                                None => false,
                            },
                        forall|k: int|
                            0 <= k < j ==> #[trigger] entries_get(
                                entries_view(a@),
                                entries_view(b@)[k].0,
                            ) is Some,
                    decreases b.len() - j,
                {
                    assert(entries_view(b@)[j as int].0 == b[j as int].0@);
                    if find_entry(a, &b[j].0).is_none() {
                        return false;
                    }
                    j += 1;
                }
                true
            },
            (Value::SamFunction(f), Value::SamFunction(g)) => {
                if f.start != g.start || f.end != g.end || f.params.len() != g.params.len() {
                    assert(strings_view(f.params@).len() == f.params.len());
                    assert(strings_view(g.params@).len() == g.params.len());
                    return false;
                }
                let mut i: usize = 0;
                while i < f.params.len()
                    invariant
                        i <= f.params.len(),
                        f.params.len() == g.params.len(),
                        *self == Value::SamFunction(*f),
                        *other == Value::SamFunction(*g),
                        forall|j: int| 0 <= j < i ==> f.params[j]@ == g.params[j]@,
                    decreases f.params.len() - i,
                {
                    if f.params[i] != g.params[i] {
                        assert(strings_view(f.params@)[i as int] != strings_view(g.params@)[i as int]);
                        return false;
                    }
                    i += 1;
                }
                assert(strings_view(f.params@) =~= strings_view(g.params@));
                true
            },
            (Value::SamForeignFunction(f), Value::SamForeignFunction(g)) => f.cmd == g.cmd,
            (Value::Undefined, Value::Undefined) => true,
            _ => false,
        }
    }

    /// The value of attribute `key` of an object.
    pub fn get_attribute(&self, key: &String) -> (r: Result<Value, ErrorKind>)
        ensures
            match self@ {
                Val::Obj(e) => match entries_get(e, key@) {
                    Some(v) => r matches Ok(x) && x@ == v,
                    None => r == Err::<Value, ErrorKind>(ErrorKind::UnknownAttribute),
                },
                _ => r == Err::<Value, ErrorKind>(ErrorKind::NotAttributable),
            },
    {
        match self {
            Value::SamObject(e) => {
                proof {
                    lemma_object_view(*self);
                }
                match find_entry(e, key) {
                    Some(j) => Ok(e[j].1.deep_copy()),
                    None => Err(ErrorKind::UnknownAttribute),
                }
            },
            _ => Err(ErrorKind::NotAttributable),
        }
    }

    /// The textual rendering of this value (see `text_of`).
    pub fn to_text(&self) -> (r: String)
        ensures
            r@ == text_of(self@),
        decreases self,
    {
        match self {
            Value::SamNumber(Number::SamInt(i)) => int_to_text(*i),
            Value::SamNumber(Number::SamFloat(f)) => to_decimal(*f),
            Value::SamString(s) => s.clone(),
            Value::SamArray(a) => {
                let ghost texts = item_texts(self@->Arr_0);
                let mut out = String::new();
                let mut i: usize = 0;
                while i < a.len()
                    invariant
                        i <= a.len(),
                        *self is SamArray,
                        self->SamArray_0 == *a,
                        texts.len() == a.len(),
                        forall|j: int| 0 <= j < a.len() ==> texts[j] == text_of(#[trigger] a[j]@),
                        out@ == join_commas(texts.subrange(0, i as int)),
                    decreases a.len() - i,
                {
                    proof {
                        vstd::std_specs::vec::axiom_vec_index_decreases(*a, i as int);
                    }
                    let t = a[i].to_text();
                    if i > 0 {
                        out.append(",");
                    }
                    out.append(t.as_str());
                    proof {
                        reveal_strlit(",");
                        let p = texts.subrange(0, i + 1);
                        assert(p.drop_last() =~= texts.subrange(0, i as int));
                        assert(p.last() == texts[i as int]);
                        assert(out@ =~= join_commas(p));
                    }
                    i += 1;
                }
                assert(texts.subrange(0, a.len() as int) =~= texts);
                assert(out@ == join_commas(texts));
                assert(self@ == Val::Arr(self@->Arr_0));
                assert(out@ == text_of(self@));
                out
            },
            Value::SamObject(_) => String::from_str("[object Object]"),
            Value::SamFunction(_) => String::from_str("[function]"),
            Value::SamForeignFunction(_) => String::from_str("[foreign function]"),
            Value::Undefined => String::from_str("undefined"),
        }
    }
    pub fn add(self, rhs: Value) -> (r: Value)
        ensures
            r@ == add_spec(self@, rhs@),
    {
        match (self, rhs) {
            (Value::SamNumber(a), Value::SamNumber(b)) => Value::SamNumber(a.add(b)),
            (Value::SamString(a), Value::SamString(b)) => {
                let mut s = a;
                s.append(b.as_str());
                Value::SamString(s)
            },
            _ => Value::Undefined,
        }
    }

    pub fn sub(self, rhs: Value) -> (r: Value)
        ensures
            r@ == sub_spec(self@, rhs@),
    {
        match (self, rhs) {
            (Value::SamNumber(a), Value::SamNumber(b)) => Value::SamNumber(a.sub(b)),
            _ => Value::Undefined,
        }
    }

    pub fn mul(self, rhs: Value) -> (r: Value)
        ensures
            r@ == mul_spec(self@, rhs@),
    {
        match (self, rhs) {
            (Value::SamNumber(a), Value::SamNumber(b)) => Value::SamNumber(a.mul(b)),
            _ => Value::Undefined,
        }
    }

    pub fn div(self, rhs: Value) -> (r: Value)
        ensures
            r@ == div_spec(self@, rhs@),
    {
        match (self, rhs) {
            (Value::SamNumber(a), Value::SamNumber(b)) => if b.is_zero() {
                Value::Undefined
            } else {
                Value::SamNumber(a.div(b))
            },
            _ => Value::Undefined,
        }
    }

    pub fn rem(self, rhs: Value) -> (r: Value)
        ensures
            r@ == rem_spec(self@, rhs@),
    {
        match (self, rhs) {
            (Value::SamNumber(a), Value::SamNumber(b)) => if b.is_zero() {
                Value::Undefined
            } else {
                Value::SamNumber(a.rem(b))
            },
            _ => Value::Undefined,
        }
    }

    pub fn partial_cmp(&self, other: &Value) -> (r: Option<Ordering>)
        ensures
            r == order_spec(self@, other@),
    {
        match (self, other) {
            (Value::SamNumber(a), Value::SamNumber(b)) => a.partial_cmp(b),
            _ => None,
        }
    }

    /// The truth value of a condition operand: defined for numbers only.
    pub fn truth(&self) -> (r: Option<bool>)
        ensures
            r == (match self@ {
                Val::Num(n) => Some(truth_of(n)),
                _ => None,
            }),
    {
        match self {
            Value::SamNumber(n) => Some(!n.is_zero()),
            _ => None,
        }
    }
}

impl From<bool> for Value {
    fn from(b: bool) -> (r: Value)
        ensures
            r@ == bool_value(b),
    {
        Value::SamNumber(
            Number::SamInt(
                if b {
                    1
                } else {
                    0
                },
            ),
        )
    }
}

impl vstd::std_specs::convert::FromSpecImpl<bool> for Value {
    open spec fn obeys_from_spec() -> bool {
        true
    }

    open spec fn from_spec(b: bool) -> Value {
        Value::SamNumber(
            Number::SamInt(
                if b {
                    1
                } else {
                    0
                },
            ),
        )
    }
}

} // verus!
