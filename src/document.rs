//! One open file: its text, syntax tree, AST and diagnostics, and the edit
//! pipeline that carries a batch of protocol edits into the text and into
//! the deltas that the grammar engine needs to reparse incrementally.

use crate::ast::{file_model, readable, File};
use crate::cst::SyntaxTree;
use crate::diagnostics::{collect_syntax_errors, syntax_errors, Diagnostic};
use crate::text::{
    byte_point, byte_to_point, bytes_of, chars_in_bytes, is_char_boundary, lemma_bytes_concat,
    lemma_bytes_mono, lemma_chars_in_bytes_mono, lemma_line_exists, lemma_utf8_len, line_start,
    on_char_boundary, position_byte, position_in_text, position_point, rope_byte_to_char,
    rope_char_to_utf16_cu, rope_chars, rope_clone, rope_insert, rope_len_bytes, rope_len_chars,
    rope_len_lines, rope_len_utf16_cu, rope_line_to_byte, rope_line_to_char, rope_remove, Point,
    PositionEncoding, Range,
};
use ropey::Rope;
use vstd::prelude::*;

verus! {

/// A protocol edit: replace the text in `range` by `text`. An edit without a
/// range stands for replacing the whole document.
pub struct TextEdit {
    pub range: Option<Range>,
    pub text: String,
}

/// The delta of one edit, as the grammar engine takes it.
#[derive(Clone, Copy, Debug, PartialEq, Eq, Structural)]
pub struct InputEdit {
    pub start_byte: usize,
    pub old_end_byte: usize,
    pub new_end_byte: usize,
    pub start_position: Point,
    pub old_end_position: Point,
    pub new_end_position: Point,
}

/// Why a batch of edits was refused.
#[derive(Clone, Copy, Debug, PartialEq, Eq, Structural)]
pub enum EditError {
    /// An edit without a range: whole-document replacement is not taken.
    WholeDocument,
    /// An edit whose range does not name an ordered pair of character
    /// boundaries on existing lines.
    OutOfRange,
}

// ---------------------------------------------------------------------------
// One edit, over the text's characters.

/// Edit `e` can be applied to text `s`: it has a range whose two ends lie in
/// the text, on character boundaries, in order.
pub open spec fn edit_applies(s: Seq<char>, enc: PositionEncoding, e: TextEdit) -> bool {
    match e.range {
        None => false,
        Some(r) => {
            &&& position_in_text(s, enc, r.start)
            &&& position_in_text(s, enc, r.end)
            &&& is_char_boundary(s, position_byte(s, enc, r.start))
            &&& is_char_boundary(s, position_byte(s, enc, r.end))
            &&& position_byte(s, enc, r.start) <= position_byte(s, enc, r.end)
        },
    }
}

pub open spec fn edit_error(e: TextEdit) -> EditError {
    if e.range is None {
        EditError::WholeDocument
    } else {
        EditError::OutOfRange
    }
}

/// `s` with the characters `a..b` replaced by `x`.
pub open spec fn splice(s: Seq<char>, a: int, b: int, x: Seq<char>) -> Seq<char> {
    s.take(a) + x + s.skip(b)
}

/// The text after edit `e`: the characters of its range replaced by its text.
pub open spec fn edit_result(s: Seq<char>, enc: PositionEncoding, e: TextEdit) -> Seq<char> {
    let r = e.range->Some_0;
    splice(
        s,
        chars_in_bytes(s, position_byte(s, enc, r.start)) as int,
        chars_in_bytes(s, position_byte(s, enc, r.end)) as int,
        e.text@,
    )
}

/// The delta of edit `e`: its range in bytes and points before the edit, and
/// where the new text ends after it.
pub open spec fn edit_delta(s: Seq<char>, enc: PositionEncoding, e: TextEdit) -> InputEdit {
    let r = e.range->Some_0;
    let start = position_byte(s, enc, r.start);
    let new_end = start + bytes_of(e.text@);
    InputEdit {
        start_byte: start as usize,
        old_end_byte: position_byte(s, enc, r.end) as usize,
        new_end_byte: new_end as usize,
        start_position: position_point(s, enc, r.start),
        old_end_position: position_point(s, enc, r.end),
        new_end_position: byte_point(edit_result(s, enc, e), new_end),
    }
}

// ---------------------------------------------------------------------------
// A batch, applied from its last edit to its first.

pub open spec fn batch_applies(s: Seq<char>, enc: PositionEncoding, es: Seq<TextEdit>) -> bool
    decreases es.len(),
{
    es.len() == 0 || (edit_applies(s, enc, es.last()) && batch_applies(
        edit_result(s, enc, es.last()),
        enc,
        es.drop_last(),
    ))
}

/// The error of the first edit, counting from the last, that cannot be applied.
pub open spec fn batch_error(s: Seq<char>, enc: PositionEncoding, es: Seq<TextEdit>) -> EditError
    decreases es.len(),
{
    if es.len() == 0 {
        EditError::OutOfRange
    } else if !edit_applies(s, enc, es.last()) {
        edit_error(es.last())
    } else {
        batch_error(edit_result(s, enc, es.last()), enc, es.drop_last())
    }
}

pub open spec fn batch_result(s: Seq<char>, enc: PositionEncoding, es: Seq<TextEdit>) -> Seq<char>
    decreases es.len(),
{
    if es.len() == 0 {
        s
    } else {
        batch_result(edit_result(s, enc, es.last()), enc, es.drop_last())
    }
}

/// The deltas of a batch, in the order in which its edits were applied.
pub open spec fn batch_deltas(s: Seq<char>, enc: PositionEncoding, es: Seq<TextEdit>) -> Seq<
    InputEdit,
>
    decreases es.len(),
{
    if es.len() == 0 {
        seq![]
    } else {
        seq![edit_delta(s, enc, es.last())] + batch_deltas(
            edit_result(s, enc, es.last()),
            enc,
            es.drop_last(),
        )
    }
}

// ---------------------------------------------------------------------------
// Checks on positions.

/// Whether `pos` names an existing line of `text` and a column within the text.
pub fn position_in_range(text: &Rope, enc: PositionEncoding, pos: crate::text::Position) -> (r: bool)
    ensures
        r == position_in_text(rope_chars(*text), enc, pos),
{
    let ghost s = rope_chars(*text);
    let line = pos.line as usize;
    if line >= rope_len_lines(text) {
        return false;
    }
    proof {
        lemma_line_exists(s, line as int);
        assert(s.take(s.len() as int) =~= s);
    }
    let ch = pos.character as usize;
    match enc {
        PositionEncoding::Utf8 => {
            let lb = rope_line_to_byte(text, line);
            let total = rope_len_bytes(text);
            proof {
                lemma_bytes_mono(s, line_start(s, line as int), s.len() as int);
            }
            ch <= total - lb
        },
        PositionEncoding::Utf16 => {
            let lc = rope_line_to_char(text, line);
            let lu = rope_char_to_utf16_cu(text, lc);
            let total = rope_len_utf16_cu(text);
            proof {
                crate::text::lemma_units_mono(s, lc as int, s.len() as int);
            }
            ch <= total - lu
        },
        PositionEncoding::Utf32 => {
            let lc = rope_line_to_char(text, line);
            let total = rope_len_chars(text);
            ch <= total - lc
        },
    }
}

/// Applies one edit to `text` and gives its delta; refuses an edit that
/// cannot be applied, and leaves `text` as it was.
pub fn apply_edit(text: &mut Rope, enc: PositionEncoding, edit: &TextEdit) -> (r: Result<
    InputEdit,
    EditError,
>)
    ensures
        r is Ok <==> edit_applies(rope_chars(*old(text)), enc, *edit),
        r matches Ok(d) ==> d == edit_delta(rope_chars(*old(text)), enc, *edit) && rope_chars(
            *final(text),
        ) == edit_result(rope_chars(*old(text)), enc, *edit),
        r matches Err(e) ==> e == edit_error(*edit) && rope_chars(*final(text)) == rope_chars(
            *old(text),
        ),
{
    let ghost s = rope_chars(*text);
    let range = match edit.range {
        Some(r) => r,
        None => {
            return Err(EditError::WholeDocument);
        },
    };
    if !position_in_range(text, enc, range.start) || !position_in_range(text, enc, range.end) {
        return Err(EditError::OutOfRange);
    }
    let start_byte = enc.position_to_byte(text, range.start);
    let old_end_byte = enc.position_to_byte(text, range.end);
    if !on_char_boundary(text, start_byte) || !on_char_boundary(text, old_end_byte) || start_byte
        > old_end_byte {
        return Err(EditError::OutOfRange);
    }
    let start_position = enc.position_to_point(text, range.start);
    let old_end_position = enc.position_to_point(text, range.end);
    let start_char = rope_byte_to_char(text, start_byte);
    let end_char = rope_byte_to_char(text, old_end_byte);
    proof {
        lemma_chars_in_bytes_mono(s, start_byte as int, old_end_byte as int);
    }
    rope_remove(text, start_char, end_char);
    let ghost mid = rope_chars(*text);
    rope_insert(text, start_char, edit.text.as_str());
    proof {
        assert(mid.take(start_char as int) =~= s.take(start_char as int));
        assert(mid.skip(start_char as int) =~= s.skip(end_char as int));
    }
    let ghost t = rope_chars(*text);
    assert(t == edit_result(s, enc, *edit));
    let _ = rope_len_bytes(text);
    proof {
        lemma_utf8_len(edit.text@);
        lemma_bytes_concat(s.take(start_char as int), edit.text@);
        lemma_bytes_concat(s.take(start_char as int) + edit.text@, s.skip(end_char as int));
    }
    let new_end_byte = start_byte + edit.text.as_str().len();
    let new_end_position = byte_to_point(text, new_end_byte);
    Ok(
        InputEdit {
            start_byte,
            old_end_byte,
            new_end_byte,
            start_position,
            old_end_position,
            new_end_position,
        },
    )
}

// ---------------------------------------------------------------------------
// The document.

pub struct Document {
    pub text: Rope,
    pub tree: SyntaxTree,
    pub ast: File,
    pub diagnostics: Vec<Diagnostic>,
}

/// The edited text of a document and the deltas of the edits that made it.
pub struct EditedText {
    pub text: Rope,
    pub deltas: Vec<InputEdit>,
}

impl Document {
    /// The document's tree reads over its text, and its AST and diagnostics
    /// are those of that tree and text.
    pub open spec fn consistent(&self, enc: PositionEncoding) -> bool {
        &&& readable(self.tree, rope_chars(self.text))
        &&& self.ast.view() == file_model(self.tree, rope_chars(self.text))
        &&& self.diagnostics@ == syntax_errors(self.tree, rope_chars(self.text), enc)
    }

    /// Opens a document over `text` and the syntax tree that a full parse of
    /// it gave.
    pub fn open(text: Rope, tree: SyntaxTree, enc: PositionEncoding) -> (d: Document)
        requires
            readable(tree, rope_chars(text)),
        ensures
            rope_chars(d.text) == rope_chars(text),
            d.tree == tree,
            d.consistent(enc),
    {
        let ast = File::parse(&tree, &text);
        let mut d = Document { text, tree, ast, diagnostics: Vec::new() };
        d.check_syntax_errors(enc);
        assert(d.diagnostics@ =~= syntax_errors(d.tree, rope_chars(d.text), enc));
        d
    }

    /// Appends the diagnostics of the tree to the document's list.
    pub fn check_syntax_errors(&mut self, enc: PositionEncoding)
        requires
            old(self).tree.wf(),
            crate::cst::fits_text(old(self).tree, rope_chars(old(self).text)),
        ensures
            final(self).diagnostics@ == old(self).diagnostics@ + syntax_errors(
                old(self).tree,
                rope_chars(old(self).text),
                enc,
            ),
            final(self).text == old(self).text,
            final(self).tree == old(self).tree,
            final(self).ast == old(self).ast,
    {
        collect_syntax_errors(&self.tree, 0, &self.text, enc, &mut self.diagnostics);
    }

    /// Applies a batch of edits to a copy of the document's text, from the
    /// last edit to the first, so that each edit's range is read against the
    /// text that the edits after it left. Gives the new text and the deltas
    /// in the order applied; the document itself is not changed.
    pub fn apply_edits(&self, enc: PositionEncoding, edits: &Vec<TextEdit>) -> (r: Result<
        EditedText,
        EditError,
    >)
        ensures
            r is Ok <==> batch_applies(rope_chars(self.text), enc, edits@),
            r matches Ok(e) ==> rope_chars(e.text) == batch_result(
                rope_chars(self.text),
                enc,
                edits@,
            ) && e.deltas@ == batch_deltas(rope_chars(self.text), enc, edits@),
            r matches Err(e) ==> e == batch_error(rope_chars(self.text), enc, edits@),
    {
        let ghost s0 = rope_chars(self.text);
        let mut text = rope_clone(&self.text);
        let mut deltas: Vec<InputEdit> = Vec::new();
        let mut i: usize = edits.len();
        assert(edits@.take(i as int) =~= edits@);
        while i > 0
            invariant
                i <= edits@.len(),
                s0 == rope_chars(self.text),
                batch_applies(s0, enc, edits@) == batch_applies(
                    rope_chars(text),
                    enc,
                    edits@.take(i as int),
                ),
                batch_applies(s0, enc, edits@) ==> batch_result(s0, enc, edits@) == batch_result(
                    rope_chars(text),
                    enc,
                    edits@.take(i as int),
                ),
                batch_applies(s0, enc, edits@) ==> batch_deltas(s0, enc, edits@) == deltas@
                    + batch_deltas(rope_chars(text), enc, edits@.take(i as int)),
                !batch_applies(s0, enc, edits@) ==> batch_error(s0, enc, edits@) == batch_error(
                    rope_chars(text),
                    enc,
                    edits@.take(i as int),
                ),
            decreases i,
        {
            let ghost cur = rope_chars(text);
            let ghost pre = edits@.take(i as int);
            assert(pre.last() == edits@[i - 1]);
            assert(pre.drop_last() =~= edits@.take(i - 1));
            match apply_edit(&mut text, enc, &edits[i - 1]) {
                Ok(d) => {
                    let ghost before = deltas@;
                    deltas.push(d);
                    assert(deltas@ =~= before + seq![d]);
                    assert(seq![d] + batch_deltas(rope_chars(text), enc, edits@.take(i - 1))
                        =~= batch_deltas(cur, enc, pre));
                    assert(before + batch_deltas(cur, enc, pre) =~= deltas@ + batch_deltas(
                        rope_chars(text),
                        enc,
                        edits@.take(i - 1),
                    ));
                },
                Err(e) => {
                    return Err(e);
                },
            }
            i = i - 1;
        }
        assert(deltas@ + Seq::<InputEdit>::empty() =~= deltas@);
        Ok(EditedText { text, deltas })
    }

    /// Replaces the document's text and tree after a reparse, and rebuilds
    /// its AST and diagnostics from them.
    pub fn replace(&mut self, text: Rope, tree: SyntaxTree, enc: PositionEncoding)
        requires
            readable(tree, rope_chars(text)),
        ensures
            rope_chars(final(self).text) == rope_chars(text),
            final(self).tree == tree,
            final(self).consistent(enc),
    {
        let ast = File::parse(&tree, &text);
        self.text = text;
        self.tree = tree;
        self.ast = ast;
        self.diagnostics = Vec::new();
        self.check_syntax_errors(enc);
        assert(self.diagnostics@ =~= syntax_errors(self.tree, rope_chars(self.text), enc));
    }
}


// ---------------------------------------------------------------------------
// Laws.

/// Two edits of one batch whose ranges do not overlap, the range `a1..b1`
/// lying wholly before `a2..b2`: applying the later one first at its own
/// offsets and then the earlier one gives the same text as applying them in
/// document order, the later one's offsets shifted by the change in length
/// that the earlier one made.
pub proof fn lemma_reverse_order_edits(
    s: Seq<char>,
    a1: int,
    b1: int,
    x1: Seq<char>,
    a2: int,
    b2: int,
    x2: Seq<char>,
)
    requires
        0 <= a1 <= b1 <= a2 <= b2 <= s.len(),
    ensures
        splice(splice(s, a2, b2, x2), a1, b1, x1) == splice(
            splice(s, a1, b1, x1),
            a2 + x1.len() - (b1 - a1),
            b2 + x1.len() - (b1 - a1),
            x2,
        ),
{
    let d = x1.len() - (b1 - a1);
    let left = splice(splice(s, a2, b2, x2), a1, b1, x1);
    let right = splice(splice(s, a1, b1, x1), a2 + d, b2 + d, x2);
    assert(left =~= s.take(a1) + x1 + s.subrange(b1, a2) + x2 + s.skip(b2));
    assert(right =~= s.take(a1) + x1 + s.subrange(b1, a2) + x2 + s.skip(b2));
}

/// Reparsing is idempotent: two documents over the same text and the same
/// syntax tree hold equal ASTs (identifiers compared by their text) and
/// equal diagnostics.
pub proof fn lemma_reparse_idempotent(d1: Document, d2: Document, enc: PositionEncoding)
    requires
        d1.consistent(enc),
        d2.consistent(enc),
        rope_chars(d1.text) == rope_chars(d2.text),
        d1.tree == d2.tree,
    ensures
        d1.ast.view() == d2.ast.view(),
        d1.diagnostics@ == d2.diagnostics@,
{
}

/// Editing then reparsing agrees with opening the edited text fresh: a
/// document brought up to date after a batch of edits, and a document opened
/// over the text that the batch yields, hold equal ASTs and diagnostics when
/// the grammar engine gives both the same syntax tree.
pub proof fn lemma_edit_matches_fresh_open(
    before: Seq<char>,
    edits: Seq<TextEdit>,
    edited: Document,
    fresh: Document,
    enc: PositionEncoding,
)
    requires
        batch_applies(before, enc, edits),
        rope_chars(edited.text) == batch_result(before, enc, edits),
        edited.consistent(enc),
        rope_chars(fresh.text) == batch_result(before, enc, edits),
        fresh.consistent(enc),
        edited.tree == fresh.tree,
    ensures
        edited.ast.view() == fresh.ast.view(),
        edited.diagnostics@ == fresh.diagnostics@,
{
}

} // verus!
