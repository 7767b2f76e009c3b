//! Syntax diagnostics: one for each maximal error region of the syntax tree.

use crate::cst::{fits_text, SyntaxTree};
use crate::text::{byte_position, rope_chars, PositionEncoding, Range};
use ropey::Rope;
use vstd::prelude::*;

verus! {

#[derive(Clone, Copy, Debug, PartialEq, Eq, Structural)]
pub enum DiagnosticSeverity {
    Error,
    Warning,
    Information,
    Hint,
}

/// A positioned message about the text.
#[derive(Clone, Copy, Debug, PartialEq, Eq)]
pub struct Diagnostic {
    pub range: Range,
    pub severity: DiagnosticSeverity,
    pub message: &'static str,
}

pub open spec fn syntax_error_message() -> &'static str {
    "syntax error"
}

/// The diagnostic for error node `i`: its byte range in protocol positions.
pub open spec fn error_diagnostic(t: SyntaxTree, i: int, s: Seq<char>, enc: PositionEncoding) -> Diagnostic {
    Diagnostic {
        range: Range {
            start: byte_position(s, enc, t.nodes@[i].start_byte as int),
            end: byte_position(s, enc, t.nodes@[i].end_byte as int),
        },
        severity: DiagnosticSeverity::Error,
        message: syntax_error_message(),
    }
}

/// The diagnostics of the subtree at node `i`, depth first: nothing where no
/// error lies below; one diagnostic for an error node, whose subtree is not
/// entered; else those of the children in order.
pub open spec fn errors_at(t: SyntaxTree, i: int, s: Seq<char>, enc: PositionEncoding) -> Seq<Diagnostic>
    decreases t.nodes@.len() - i, t.kids(i).len() + 1,
{
    if !t.has(i) || !t.nodes@[i].has_error {
        seq![]
    } else if t.nodes@[i].is_error {
        seq![error_diagnostic(t, i, s, enc)]
    } else {
        errors_from(t, i, 0, s, enc)
    }
}

/// The diagnostics of the children of node `p` from the `k`-th on.
pub open spec fn errors_from(t: SyntaxTree, p: int, k: int, s: Seq<char>, enc: PositionEncoding) -> Seq<
    Diagnostic,
>
    decreases t.nodes@.len() - p, t.kids(p).len() - k,
{
    if !t.has(p) || k < 0 || k >= t.kids(p).len() {
        seq![]
    } else {
        let c = t.kids(p)[k] as int;
        (if p < c < t.nodes@.len() {
            errors_at(t, c, s, enc)
        } else {
            seq![]
        }) + errors_from(t, p, k + 1, s, enc)
    }
}

/// The diagnostics of a whole tree.
pub open spec fn syntax_errors(t: SyntaxTree, s: Seq<char>, enc: PositionEncoding) -> Seq<Diagnostic> {
    errors_at(t, 0, s, enc)
}

/// Appends the diagnostics of the subtree at `node` to `out`.
pub fn collect_syntax_errors(
    tree: &SyntaxTree,
    node: usize,
    text: &Rope,
    enc: PositionEncoding,
    out: &mut Vec<Diagnostic>,
)
    requires
        tree.wf(),
        tree.has(node as int),
        fits_text(*tree, rope_chars(*text)),
    ensures
        final(out)@ == old(out)@ + errors_at(*tree, node as int, rope_chars(*text), enc),
    decreases tree.nodes@.len() - node,
{
    let ghost s = rope_chars(*text);
    let n = &tree.nodes[node];
    if !n.has_error {
        assert(out@ =~= out@ + errors_at(*tree, node as int, s, enc));
        return;
    }
    if n.is_error {
        let range = Range {
            start: enc.byte_to_position(text, n.start_byte),
            end: enc.byte_to_position(text, n.end_byte),
        };
        out.push(Diagnostic { range, severity: DiagnosticSeverity::Error, message: "syntax error" });
        assert(out@ =~= old(out)@ + errors_at(*tree, node as int, s, enc));
        return;
    }
    let kids = &n.children;
    let mut k: usize = 0;
    while k < kids.len()
        invariant
            tree.wf(),
            tree.has(node as int),
            fits_text(*tree, s),
            s == rope_chars(*text),
            kids@ == tree.kids(node as int),
            k <= kids@.len(),
            errors_at(*tree, node as int, s, enc) == errors_from(*tree, node as int, 0, s, enc),
            old(out)@ + errors_from(*tree, node as int, 0, s, enc) == out@ + errors_from(
                *tree,
                node as int,
                k as int,
                s,
                enc,
            ),
        decreases kids@.len() - k,
    {
        let c = kids[k];
        assert(node < tree.nodes@[node as int].children@[k as int] < tree.nodes@.len());
        let ghost before = out@;
        collect_syntax_errors(tree, c, text, enc, out);
        assert(before + errors_from(*tree, node as int, k as int, s, enc) =~= out@ + errors_from(
            *tree,
            node as int,
            k as int + 1,
            s,
            enc,
        ));
        k = k + 1;
    }
    assert(out@ + errors_from(*tree, node as int, k as int, s, enc) =~= out@);
}

/// A tree with no error anywhere gives no diagnostics.
pub proof fn lemma_no_error_no_diagnostics(t: SyntaxTree, s: Seq<char>, enc: PositionEncoding)
    requires
        t.wf(),
        !t.nodes@[0].has_error,
    ensures
        syntax_errors(t, s, enc) == Seq::<Diagnostic>::empty(),
{
}

} // verus!
