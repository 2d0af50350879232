//! Number and string literals.
use crate::float::{decimal_to_float, parse_decimal, Float};
use crate::syntax::{push_char, NodeKind, SyntaxTree};
use crate::value::Number;
use vstd::prelude::*;

verus! {

pub open spec fn is_digit(c: char) -> bool {
    '0' <= c && c <= '9'
}

/// The value of a string of decimal digits.
pub open spec fn digits_value(s: Seq<char>) -> int
    decreases s.len(),
{
    if s.len() == 0 {
        0
    } else {
        digits_value(s.drop_last()) * 10 + (s.last() as u32 - '0' as u32)
    }
}

/// The number a literal's text denotes: a float when it has a decimal point,
/// else an integer, which must be all digits and fit in `i64`.
pub open spec fn number_literal(s: Seq<char>) -> Option<Number> {
    if s.contains('.') {
        match decimal_to_float(s) {
            Some(b) => Some(Number::SamFloat(Float { bits: b })),
            None => None,
        }
    } else if 0 < s.len() && (forall|i: int| 0 <= i < s.len() ==> is_digit(#[trigger] s[i]))
        && digits_value(s) <= i64::MAX {
        Some(Number::SamInt(digits_value(s) as i64))
    } else {
        None
    }
}

/// The character an escape sequence's letter stands for.
pub open spec fn escape_char(c: char) -> char {
    if c == 'n' {
        '\n'
    } else if c == 't' {
        '\t'
    } else if c == 'r' {
        '\r'
    } else if c == '0' {
        '\0'
    } else {
        c
    }
}

/// What one child of a string literal contributes to its value.
pub open spec fn string_piece(t: SyntaxTree, c: int) -> Seq<char> {
    match t.nodes[c].kind {
        NodeKind::StringFragment => t.text(c),
        NodeKind::EscapeSequence => if t.text(c).len() >= 2 {
            seq![escape_char(t.text(c)[1])]
        } else {
            t.text(c)
        },
        _ => Seq::empty(),
    }
}

/// The pieces of children `cs` of a string literal, joined.
pub open spec fn string_pieces(t: SyntaxTree, cs: Seq<usize>) -> Seq<char>
    decreases cs.len(),
{
    if cs.len() == 0 {
        Seq::empty()
    } else {
        string_pieces(t, cs.drop_last()) + string_piece(t, cs.last() as int)
    }
}

/// The value of string literal node `i`.
pub open spec fn string_literal(t: SyntaxTree, i: int) -> Seq<char> {
    string_pieces(t, t.nodes[i].children@)
}

/// Reads a number literal from its characters.
pub fn parse_number(chars: &Vec<char>) -> (r: Option<Number>)
    ensures
        r == number_literal(chars@),
{
    let ghost text = chars@;
    let mut i: usize = 0;
    while i < chars.len()
        invariant
            i <= chars.len(),
            chars@ == text,
            forall|j: int| 0 <= j < i ==> chars[j] != '.',
        decreases chars.len() - i,
    {
        if chars[i] == '.' {
            assert(text.contains('.')) by {
                assert(text[i as int] == '.');
            }
            let mut s = String::new();
            let mut k: usize = 0;
            while k < chars.len()
                invariant
                    k <= chars.len(),
                    s@ == chars@.subrange(0, k as int),
                decreases chars.len() - k,
            {
                push_char(&mut s, chars[k]);
                k += 1;
                assert(s@ =~= chars@.subrange(0, k as int));
            }
            assert(chars@.subrange(0, k as int) =~= chars@);
            return match parse_decimal(s.as_str()) {
                Some(f) => Some(Number::SamFloat(f)),
                None => None,
            };
        }
        i += 1;
    }
    assert(!text.contains('.'));
    if chars.len() == 0 {
        return None;
    }
    let mut value: i64 = 0;
    let mut k: usize = 0;
    while k < chars.len()
        invariant
            k <= chars.len(),
            chars@ == text,
            0 < chars.len(),
            !text.contains('.'),
            forall|j: int| 0 <= j < k ==> is_digit(#[trigger] chars[j]),
            value as int == digits_value(chars@.subrange(0, k as int)),
        decreases chars.len() - k,
    {
        let c = chars[k];
        if !('0' <= c && c <= '9') {
            assert(!is_digit(text[k as int]));
            return None;
        }
        let d = (c as u32 - '0' as u32) as i64;
        let ghost pre = chars@.subrange(0, k as int);
        let ghost next = chars@.subrange(0, k + 1);
        assert(next.drop_last() =~= pre);
        if value > (i64::MAX - d) / 10 {
            proof {
                assert(next.last() == c);
                assert(digits_value(next) == value * 10 + d);
                let v = value as int;
                let dd = d as int;
                assert(v * 10 + dd > i64::MAX) by (nonlinear_arith)
                    requires
                        v > (i64::MAX - dd) / 10,
                        0 <= dd <= 9,
                ;
                if forall|j: int| 0 <= j < text.len() ==> is_digit(#[trigger] text[j]) {
                    lemma_digits_prefix(chars@, k + 1, chars@.len() as int);
                    assert(chars@.subrange(0, chars@.len() as int) =~= chars@);
                }
            }
            return None;
        }
        proof {
            let v = value as int;
            let dd = d as int;
            assert(0 <= v) by {
                lemma_digits_nonneg(pre);
            }
            assert(v * 10 + dd <= i64::MAX) by (nonlinear_arith)
                requires
                    v <= (i64::MAX - dd) / 10,
                    0 <= dd <= 9,
                    0 <= v,
            ;
            assert(next.last() == c);
        }
        value = value * 10 + d;
        k += 1;
    }
    assert(chars@.subrange(0, k as int) =~= chars@);
    Some(Number::SamInt(value))
}

/// A longer run of digits has at least the value of its prefix.
proof fn lemma_digits_prefix(s: Seq<char>, k: int, m: int)
    requires
        0 <= k <= m <= s.len(),
        forall|j: int| 0 <= j < m ==> is_digit(#[trigger] s[j]),
    ensures
        digits_value(s.subrange(0, m)) >= digits_value(s.subrange(0, k)),
    decreases m - k,
{
    if m > k {
        lemma_digits_prefix(s, k, m - 1);
        let p = s.subrange(0, m);
        assert(p.drop_last() =~= s.subrange(0, m - 1));
        lemma_digits_nonneg(s.subrange(0, m - 1));
    }
}

proof fn lemma_digits_nonneg(s: Seq<char>)
    requires
        forall|j: int| 0 <= j < s.len() ==> is_digit(#[trigger] s[j]),
    ensures
        digits_value(s) >= 0,
    decreases s.len(),
{
    if s.len() > 0 {
        lemma_digits_nonneg(s.drop_last());
    }
}

/// Reads string literal node `i`: fragments as written, escape sequences
/// decoded.
pub fn decode_string(t: &SyntaxTree, i: usize) -> (r: String)
    requires
        t.wf(),
        i < t.nodes.len(),
    ensures
        r@ == string_literal(*t, i as int),
{
    assert(t.node_wf(i as int));
    let n = &t.nodes[i];
    let mut out = String::new();
    let mut k: usize = 0;
    while k < n.children.len()
        invariant
            t.wf(),
            i < t.nodes.len(),
            *n == t.nodes[i as int],
            t.node_wf(i as int),
            k <= n.children.len(),
            out@ == string_pieces(*t, n.children@.subrange(0, k as int)),
        decreases n.children.len() - k,
    {
        let c = n.children[k];
        assert(t.node_wf(c as int));
        let ghost before = out@;
        let piece = &t.nodes[c];
        match piece.kind {
            NodeKind::StringFragment => {
                let mut p: usize = piece.start;
                while p < piece.end
                    invariant
                        c < t.nodes.len(),
                        *piece == t.nodes[c as int],
                        piece.start <= p <= piece.end <= t.source.len(),
                        out@ == before + t.source@.subrange(piece.start as int, p as int),
                    decreases piece.end - p,
                {
                    push_char(&mut out, t.source[p]);
                    p += 1;
                    assert(out@ =~= before + t.source@.subrange(piece.start as int, p as int));
                }
            },
            NodeKind::EscapeSequence => {
                if piece.end - piece.start >= 2 {
                    let e = t.source[piece.start + 1];
                    let d = if e == 'n' {
                        '\n'
                    } else if e == 't' {
                        '\t'
                    } else if e == 'r' {
                        '\r'
                    } else if e == '0' {
                        '\0'
                    } else {
                        e
                    };
                    push_char(&mut out, d);
                    assert(t.text(c as int)[1] == e);
                    assert(out@ =~= before + seq![escape_char(t.text(c as int)[1])]);
                } else {
                    let mut p: usize = piece.start;
                    while p < piece.end
                        invariant
                            c < t.nodes.len(),
                            *piece == t.nodes[c as int],
                            piece.start <= p <= piece.end <= t.source.len(),
                            out@ == before + t.source@.subrange(piece.start as int, p as int),
                        decreases piece.end - p,
                    {
                        push_char(&mut out, t.source[p]);
                        p += 1;
                        assert(out@ =~= before + t.source@.subrange(
                            piece.start as int,
                            p as int,
                        ));
                    }
                }
            },
            _ => {
                assert(out@ =~= before + Seq::<char>::empty());
            },
        }
        assert(n.children@.subrange(0, k + 1).drop_last() =~= n.children@.subrange(0, k as int));
        k += 1;
    }
    assert(n.children@.subrange(0, k as int) =~= n.children@);
    out
}

} // verus!
