//! Integer literals: digits, optionally broken up by `_`, then `_` and one of
//! the eight integer type names, as in `1_000_i32`.

use crate::ast::SyntaxError;
use crate::cst::{fits_text, node_chars, NodeKind, SyntaxTree};
use crate::text::{node_text, rope_chars};
use crate::typ::{type_from_word, type_named, Type};
use ropey::Rope;
use vstd::prelude::*;

verus! {

/// An integer literal: its type, and its value where the digits fit.
#[derive(Clone, Copy, Debug, PartialEq, Eq)]
pub enum IntLiteral {
    U8(Result<u8, SyntaxError>),
    U16(Result<u16, SyntaxError>),
    U32(Result<u32, SyntaxError>),
    U64(Result<u64, SyntaxError>),
    I8(Result<i8, SyntaxError>),
    I16(Result<i16, SyntaxError>),
    I32(Result<i32, SyntaxError>),
    I64(Result<i64, SyntaxError>),
}

pub open spec fn is_digit(c: char) -> bool {
    '0' <= c <= '9'
}

pub open spec fn digit_value(c: char) -> nat {
    ((c as u32) - ('0' as u32)) as nat
}

/// The number that a sequence of decimal digits spells.
pub open spec fn digits_value(ds: Seq<char>) -> nat
    decreases ds.len(),
{
    if ds.len() == 0 {
        0
    } else {
        digits_value(ds.drop_last()) * 10 + digit_value(ds.last())
    }
}

/// What `str::parse` gives for `cs` into an integer type whose values are
/// `lo..=hi`: an optional sign (`-` only where `lo` is negative), then one or
/// more decimal digits, whose value must lie in the range.
pub open spec fn decimal_value(cs: Seq<char>, lo: int, hi: int) -> Option<int> {
    let ds = unsigned_part(cs, lo);
    if ds.len() == 0 || !all_digits(ds) {
        None
    } else {
        let v = if is_negative(cs, lo) {
            -digits_value(ds)
        } else {
            digits_value(ds) as int
        };
        if lo <= v <= hi {
            Some(v)
        } else {
            None
        }
    }
}

/// The text starts with a minus sign that the type admits.
pub open spec fn is_negative(cs: Seq<char>, lo: int) -> bool {
    cs.len() > 0 && cs[0] == '-' && lo < 0
}

/// The text after its sign, if it has one.
pub open spec fn unsigned_part(cs: Seq<char>, lo: int) -> Seq<char> {
    if cs.len() > 0 && (cs[0] == '+' || is_negative(cs, lo)) {
        cs.drop_first()
    } else {
        cs
    }
}

pub open spec fn all_digits(ds: Seq<char>) -> bool {
    forall|j: int| 0 <= j < ds.len() ==> is_digit(#[trigger] ds[j])
}

/// Index of the last `_` in `cs`, or -1 if there is none.
pub open spec fn last_underscore(cs: Seq<char>) -> int
    decreases cs.len(),
{
    if cs.len() == 0 {
        -1
    } else if cs.last() == '_' {
        cs.len() - 1
    } else {
        last_underscore(cs.drop_last())
    }
}

/// `cs` with every `_` taken out.
pub open spec fn without_underscores(cs: Seq<char>) -> Seq<char>
    decreases cs.len(),
{
    if cs.len() == 0 {
        seq![]
    } else if cs.last() == '_' {
        without_underscores(cs.drop_last())
    } else {
        without_underscores(cs.drop_last()).push(cs.last())
    }
}

/// The type name after the last `_`.
pub open spec fn literal_suffix(cs: Seq<char>) -> Seq<char> {
    cs.skip(last_underscore(cs) + 1)
}

/// The digits before the last `_`, separators removed.
pub open spec fn literal_digits(cs: Seq<char>) -> Seq<char> {
    without_underscores(cs.take(last_underscore(cs)))
}

/// The grammar hands the builder only literals that end in `_` and one of
/// the eight integer type names.
pub open spec fn literal_text_ok(cs: Seq<char>) -> bool {
    &&& last_underscore(cs) >= 0
    &&& type_named(literal_suffix(cs)) matches Some(ty)
    &&& ty != Type::Unit
}

/// The literal that text `cs` spells.
pub open spec fn literal_model(cs: Seq<char>) -> IntLiteral {
    let ds = literal_digits(cs);
    match type_named(literal_suffix(cs)) {
        Some(Type::U8) => IntLiteral::U8(
            match decimal_value(ds, 0, 0xff) {
                Some(v) => Ok(v as u8),
                None => Err(SyntaxError),
            },
        ),
        Some(Type::U16) => IntLiteral::U16(
            match decimal_value(ds, 0, 0xffff) {
                Some(v) => Ok(v as u16),
                None => Err(SyntaxError),
            },
        ),
        Some(Type::U32) => IntLiteral::U32(
            match decimal_value(ds, 0, 0xffff_ffff) {
                Some(v) => Ok(v as u32),
                None => Err(SyntaxError),
            },
        ),
        Some(Type::U64) => IntLiteral::U64(
            match decimal_value(ds, 0, 0xffff_ffff_ffff_ffff) {
                Some(v) => Ok(v as u64),
                None => Err(SyntaxError),
            },
        ),
        Some(Type::I8) => IntLiteral::I8(
            match decimal_value(ds, -0x80, 0x7f) {
                Some(v) => Ok(v as i8),
                None => Err(SyntaxError),
            },
        ),
        Some(Type::I16) => IntLiteral::I16(
            match decimal_value(ds, -0x8000, 0x7fff) {
                Some(v) => Ok(v as i16),
                None => Err(SyntaxError),
            },
        ),
        Some(Type::I32) => IntLiteral::I32(
            match decimal_value(ds, -0x8000_0000, 0x7fff_ffff) {
                Some(v) => Ok(v as i32),
                None => Err(SyntaxError),
            },
        ),
        _ => IntLiteral::I64(
            match decimal_value(ds, -0x8000_0000_0000_0000, 0x7fff_ffff_ffff_ffff) {
                Some(v) => Ok(v as i64),
                None => Err(SyntaxError),
            },
        ),
    }
}

/// Reads decimal text as `str::parse` does into an integer type whose values
/// are `lo..=hi`.
pub fn parse_decimal(cs: &Vec<char>, lo: i128, hi: i128) -> (r: Option<i128>)
    requires
        -0x1_0000_0000_0000_0000 <= lo <= 0 <= hi <= 0x1_0000_0000_0000_0000,
    ensures
        match r {
            Some(v) => decimal_value(cs@, lo as int, hi as int) == Some(v as int),
            None => decimal_value(cs@, lo as int, hi as int) is None,
        },
{
    let n = cs.len();
    if n == 0 {
        return None;
    }
    let neg = cs[0] == '-' && lo < 0;
    let start: usize = if cs[0] == '+' || neg {
        1
    } else {
        0
    };
    let ghost ds = unsigned_part(cs@, lo as int);
    assert(ds =~= cs@.subrange(start as int, n as int));
    if start == n {
        return None;
    }
    let bound: i128 = if neg {
        -lo
    } else {
        hi
    };
    let mut acc: i128 = 0;
    let mut i: usize = start;
    assert(cs@.subrange(start as int, start as int) =~= Seq::<char>::empty());
    while i < n
        invariant
            n == cs@.len(),
            start <= i <= n,
            ds == cs@.subrange(start as int, n as int),
            neg == is_negative(cs@, lo as int),
            ds == unsigned_part(cs@, lo as int),
            -0x1_0000_0000_0000_0000 <= lo <= 0 <= hi <= 0x1_0000_0000_0000_0000,
            bound == if neg { -lo } else { hi as int },
            0 <= bound <= 0x1_0000_0000_0000_0000,
            forall|j: int| start <= j < i ==> is_digit(#[trigger] cs@[j]),
            acc == if digits_value(cs@.subrange(start as int, i as int)) <= bound {
                digits_value(cs@.subrange(start as int, i as int)) as int
            } else {
                bound + 1
            },
        decreases n - i,
    {
        let c = cs[i];
        if !('0' <= c && c <= '9') {
            assert(ds[i - start] == c);
            assert(!is_digit(ds[i - start]));
            assert(!all_digits(ds));
            assert(decimal_value(cs@, lo as int, hi as int) is None);
            return None;
        }
        let d: i128 = ((c as u32) - ('0' as u32)) as i128;
        let ghost prev = cs@.subrange(start as int, i as int);
        let ghost next = cs@.subrange(start as int, i as int + 1);
        assert(next.drop_last() =~= prev);
        assert(digits_value(next) == digits_value(prev) * 10 + d);
        if acc <= bound {
            acc = acc * 10 + d;
            if acc > bound {
                acc = bound + 1;
            }
        }
        i = i + 1;
    }
    assert(cs@.subrange(start as int, n as int) == ds);
    assert(all_digits(ds)) by {
        assert forall|j: int| 0 <= j < ds.len() implies is_digit(#[trigger] ds[j]) by {
            assert(ds[j] == cs@[j + start]);
        }
    }
    if acc > bound {
        None
    } else if neg {
        Some(-acc)
    } else {
        Some(acc)
    }
}

fn last_underscore_index(cs: &Vec<char>) -> (r: Option<usize>)
    ensures
        match r {
            Some(k) => last_underscore(cs@) == k as int && k < cs@.len(),
            None => last_underscore(cs@) == -1,
        },
{
    let mut i: usize = cs.len();
    assert(cs@.take(i as int) =~= cs@);
    while i > 0
        invariant
            i <= cs@.len(),
            last_underscore(cs@) == last_underscore(cs@.take(i as int)),
        decreases i,
    {
        assert(cs@.take(i as int).drop_last() =~= cs@.take(i as int - 1));
        if cs[i - 1] == '_' {
            return Some(i - 1);
        }
        i = i - 1;
    }
    None
}

fn chars_range(cs: &Vec<char>, from: usize, to: usize) -> (r: Vec<char>)
    requires
        from <= to <= cs@.len(),
    ensures
        r@ == cs@.subrange(from as int, to as int),
{
    let mut out: Vec<char> = Vec::new();
    let mut i: usize = from;
    while i < to
        invariant
            from <= i <= to <= cs@.len(),
            out@ == cs@.subrange(from as int, i as int),
        decreases to - i,
    {
        out.push(cs[i]);
        assert(cs@.subrange(from as int, i as int + 1) =~= cs@.subrange(from as int, i as int).push(
            cs@[i as int],
        ));
        i = i + 1;
    }
    out
}

fn strip_underscores(cs: &Vec<char>, to: usize) -> (r: Vec<char>)
    requires
        to <= cs@.len(),
    ensures
        r@ == without_underscores(cs@.take(to as int)),
{
    let mut out: Vec<char> = Vec::new();
    let mut i: usize = 0;
    assert(cs@.take(0) =~= Seq::<char>::empty());
    while i < to
        invariant
            i <= to <= cs@.len(),
            out@ == without_underscores(cs@.take(i as int)),
        decreases to - i,
    {
        assert(cs@.take(i as int + 1).drop_last() =~= cs@.take(i as int));
        if cs[i] != '_' {
            out.push(cs[i]);
        }
        i = i + 1;
    }
    out
}

/// Whether `cs` has the form that the grammar guarantees of a literal.
pub fn is_literal_text(cs: &Vec<char>) -> (r: bool)
    ensures
        r == literal_text_ok(cs@),
{
    let found = last_underscore_index(cs);
    if found.is_none() {
        return false;
    }
    let k = found.unwrap();
    let n = cs.len();
    let suffix = chars_range(cs, k + 1, n);
    assert(suffix@ =~= literal_suffix(cs@));
    match type_from_word(&suffix) {
        Some(Type::Unit) => false,
        Some(_) => true,
        None => false,
    }
}

/// The literal that text `cs` spells.
pub fn literal_from_text(cs: &Vec<char>) -> (r: IntLiteral)
    requires
        literal_text_ok(cs@),
    ensures
        r == literal_model(cs@),
{
    let found = last_underscore_index(cs);
    if found.is_none() {
        return IntLiteral::U8(Err(SyntaxError));  // unreachable under the precondition
    }
    let k = found.unwrap();
    let n = cs.len();
    let suffix = chars_range(cs, k + 1, n);
    assert(suffix@ =~= literal_suffix(cs@));
    let ds = strip_underscores(cs, k);
    match type_from_word(&suffix) {
        Some(Type::U8) => IntLiteral::U8(
            match parse_decimal(&ds, 0, 0xff) {
                Some(v) => Ok(v as u8),
                None => Err(SyntaxError),
            },
        ),
        Some(Type::U16) => IntLiteral::U16(
            match parse_decimal(&ds, 0, 0xffff) {
                Some(v) => Ok(v as u16),
                None => Err(SyntaxError),
            },
        ),
        Some(Type::U32) => IntLiteral::U32(
            match parse_decimal(&ds, 0, 0xffff_ffff) {
                Some(v) => Ok(v as u32),
                None => Err(SyntaxError),
            },
        ),
        Some(Type::U64) => IntLiteral::U64(
            match parse_decimal(&ds, 0, 0xffff_ffff_ffff_ffff) {
                Some(v) => Ok(v as u64),
                None => Err(SyntaxError),
            },
        ),
        Some(Type::I8) => IntLiteral::I8(
            match parse_decimal(&ds, -0x80, 0x7f) {
                Some(v) => Ok(v as i8),
                None => Err(SyntaxError),
            },
        ),
        Some(Type::I16) => IntLiteral::I16(
            match parse_decimal(&ds, -0x8000, 0x7fff) {
                Some(v) => Ok(v as i16),
                None => Err(SyntaxError),
            },
        ),
        Some(Type::I32) => IntLiteral::I32(
            match parse_decimal(&ds, -0x8000_0000, 0x7fff_ffff) {
                Some(v) => Ok(v as i32),
                None => Err(SyntaxError),
            },
        ),
        _ => IntLiteral::I64(
            match parse_decimal(&ds, -0x8000_0000_0000_0000, 0x7fff_ffff_ffff_ffff) {
                Some(v) => Ok(v as i64),
                None => Err(SyntaxError),
            },
        ),
    }
}

impl IntLiteral {
    /// Reads node `node` of `tree` as an integer literal. The node must be a
    /// number; its text is one that the grammar gives a number.
    pub fn parse(tree: &SyntaxTree, node: usize, text: &Rope) -> (r: Result<IntLiteral, SyntaxError>)
        requires
            tree.has(node as int),
            fits_text(*tree, rope_chars(*text)),
            tree.nodes@[node as int].kind == NodeKind::Number ==> literal_text_ok(
                node_chars(*tree, node as int, rope_chars(*text)),
            ),
        ensures
            r == if tree.nodes@[node as int].kind == NodeKind::Number {
                Ok(literal_model(node_chars(*tree, node as int, rope_chars(*text))))
            } else {
                Err(SyntaxError)
            },
    {
        if tree.nodes[node].kind != NodeKind::Number {
            return Err(SyntaxError);
        }
        let cs = node_text(tree, node, text);
        Ok(literal_from_text(&cs))
    }
}

} // verus!
