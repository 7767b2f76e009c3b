//! Primitive types, read from their names.

use crate::ast::SyntaxError;
use crate::cst::{fits_text, node_chars, NodeKind, SyntaxTree};
use crate::text::{chars_eq, node_text, rope_chars};
use ropey::Rope;
use vstd::prelude::*;

verus! {

/// The primitive types: unit and the eight fixed-width integers.
#[derive(Clone, Copy, Debug, PartialEq, Eq, Structural)]
pub enum Type {
    Unit,
    I8,
    I16,
    I32,
    I64,
    U8,
    U16,
    U32,
    U64,
}

/// The type that a type name spells, if any.
pub open spec fn type_named(w: Seq<char>) -> Option<Type> {
    if w == seq!['u', 'n', 'i', 't'] {
        Some(Type::Unit)
    } else if w == seq!['i', '8'] {
        Some(Type::I8)
    } else if w == seq!['i', '1', '6'] {
        Some(Type::I16)
    } else if w == seq!['i', '3', '2'] {
        Some(Type::I32)
    } else if w == seq!['i', '6', '4'] {
        Some(Type::I64)
    } else if w == seq!['u', '8'] {
        Some(Type::U8)
    } else if w == seq!['u', '1', '6'] {
        Some(Type::U16)
    } else if w == seq!['u', '3', '2'] {
        Some(Type::U32)
    } else if w == seq!['u', '6', '4'] {
        Some(Type::U64)
    } else {
        None
    }
}

/// The outcome of reading node `i` as a type: it must be a primitive type
/// node whose text names one of the nine types.
pub open spec fn type_model(t: SyntaxTree, i: int, s: Seq<char>) -> Result<Type, SyntaxError> {
    if t.nodes@[i].kind != NodeKind::PrimitiveType {
        Err(SyntaxError)
    } else {
        match type_named(node_chars(t, i, s)) {
            Some(ty) => Ok(ty),
            None => Err(SyntaxError),
        }
    }
}

/// The type that a word names, by exact match.
pub fn type_from_word(w: &Vec<char>) -> (r: Option<Type>)
    ensures
        r == type_named(w@),
{
    if chars_eq(w, &['u', 'n', 'i', 't']) {
        Some(Type::Unit)
    } else if chars_eq(w, &['i', '8']) {
        Some(Type::I8)
    } else if chars_eq(w, &['i', '1', '6']) {
        Some(Type::I16)
    } else if chars_eq(w, &['i', '3', '2']) {
        Some(Type::I32)
    } else if chars_eq(w, &['i', '6', '4']) {
        Some(Type::I64)
    } else if chars_eq(w, &['u', '8']) {
        Some(Type::U8)
    } else if chars_eq(w, &['u', '1', '6']) {
        Some(Type::U16)
    } else if chars_eq(w, &['u', '3', '2']) {
        Some(Type::U32)
    } else if chars_eq(w, &['u', '6', '4']) {
        Some(Type::U64)
    } else {
        None
    }
}

impl Type {
    /// Reads node `node` of `tree` as a type.
    pub fn parse(tree: &SyntaxTree, node: usize, text: &Rope) -> (r: Result<Type, SyntaxError>)
        requires
            tree.has(node as int),
            fits_text(*tree, rope_chars(*text)),
        ensures
            r == type_model(*tree, node as int, rope_chars(*text)),
    {
        if tree.nodes[node].kind != NodeKind::PrimitiveType {
            return Err(SyntaxError);
        }
        let w = node_text(tree, node, text);
        match type_from_word(&w) {
            Some(ty) => Ok(ty),
            None => Err(SyntaxError),
        }
    }
}

} // verus!
