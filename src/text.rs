//! The text buffer and the three position encodings.
//!
//! The buffer is a `ropey::Rope`; its contents are modelled as the sequence of
//! characters it holds. Byte offsets, UTF-16 code-unit offsets and line
//! numbers are all stated over that sequence.

use crate::cst::{fits_text, node_chars, SyntaxTree};
use ropey::Rope;
use vstd::prelude::*;

verus! {

/// `ropey`'s rope, the text buffer of an open document.
#[verifier::external_type_specification]
#[verifier::external_body]
pub struct ExRope(Rope);

/// The characters that a rope holds.
pub uninterp spec fn rope_chars(r: Rope) -> Seq<char>;

// ---------------------------------------------------------------------------
// The model: lengths and offsets over a sequence of characters.

/// Bytes that `c` takes in UTF-8.
pub open spec fn char_bytes(c: char) -> nat {
    if (c as u32) < 0x80 {
        1
    } else if (c as u32) < 0x800 {
        2
    } else if (c as u32) < 0x10000 {
        3
    } else {
        4
    }
}

/// Code units that `c` takes in UTF-16.
pub open spec fn char_units(c: char) -> nat {
    if (c as u32) < 0x10000 {
        1
    } else {
        2
    }
}

/// Length of `s` in UTF-8 bytes.
pub open spec fn bytes_of(s: Seq<char>) -> nat
    decreases s.len(),
{
    if s.len() == 0 {
        0
    } else {
        bytes_of(s.drop_last()) + char_bytes(s.last())
    }
}

/// Length of `s` in UTF-16 code units.
pub open spec fn units_of(s: Seq<char>) -> nat
    decreases s.len(),
{
    if s.len() == 0 {
        0
    } else {
        units_of(s.drop_last()) + char_units(s.last())
    }
}

/// Number of leading characters of `s` whose encoding ends within the first
/// `b` bytes: the index of the character that byte `b` falls in.
pub open spec fn chars_in_bytes(s: Seq<char>, b: int) -> nat
    decreases s.len(),
{
    if s.len() == 0 || bytes_of(s) <= b {
        s.len()
    } else {
        chars_in_bytes(s.drop_last(), b)
    }
}

/// Number of leading characters of `s` whose encoding ends within the first
/// `u` UTF-16 code units.
pub open spec fn chars_in_units(s: Seq<char>, u: int) -> nat
    decreases s.len(),
{
    if s.len() == 0 || units_of(s) <= u {
        s.len()
    } else {
        chars_in_units(s.drop_last(), u)
    }
}

/// Byte offset of character index `k`.
pub open spec fn byte_of_char(s: Seq<char>, k: int) -> nat {
    bytes_of(s.take(k))
}

/// Byte `b` of `s` starts a character (or is the end of `s`).
pub open spec fn is_char_boundary(s: Seq<char>, b: int) -> bool {
    0 <= b && byte_of_char(s, chars_in_bytes(s, b) as int) == b
}

/// A character that ends a line by itself.
pub open spec fn is_single_break(c: char) -> bool {
    c == '\n' || c == '\u{b}' || c == '\u{c}' || c == '\u{85}' || c == '\u{2028}' || c
        == '\u{2029}'
}

/// A line break ends just before index `i`: a single break character, or a
/// carriage return that no line feed follows (a CR LF pair ends after the LF).
/// These are the breaks that the rope counts with its Unicode line endings.
pub open spec fn break_ends_at(s: Seq<char>, i: int) -> bool {
    &&& 0 < i <= s.len()
    &&& (is_single_break(s[i - 1]) || (s[i - 1] == '\r' && (i == s.len() || s[i] != '\n')))
}

/// Number of line breaks that end at or before index `k`.
pub open spec fn breaks_before(s: Seq<char>, k: int) -> nat
    decreases k,
{
    if k <= 0 {
        0
    } else {
        breaks_before(s, k - 1) + if break_ends_at(s, k) {
            1nat
        } else {
            0nat
        }
    }
}

pub open spec fn line_count(s: Seq<char>) -> nat {
    breaks_before(s, s.len() as int) + 1
}

/// Character index `k` is where line `l` starts.
pub open spec fn is_line_start(s: Seq<char>, l: int, k: int) -> bool {
    &&& 0 <= k <= s.len()
    &&& breaks_before(s, k) == l
    &&& (k == 0 || break_ends_at(s, k))
}

/// Character index at which line `l` starts.
pub open spec fn line_start(s: Seq<char>, l: int) -> int {
    choose|k: int| is_line_start(s, l, k)
}

// ---------------------------------------------------------------------------
// The rope's operations.

/// Relies on `Rope::clone`: the copy holds the same characters.
#[verifier::external_body]
pub(crate) fn rope_clone(r: &Rope) -> (c: Rope)
    ensures
        rope_chars(c) == rope_chars(*r),
{
    r.clone()
}

/// Relies on `Rope::len_bytes`: the length of the text in UTF-8 bytes.
#[verifier::external_body]
pub(crate) fn rope_len_bytes(r: &Rope) -> (n: usize)
    ensures
        n == bytes_of(rope_chars(*r)),
{
    r.len_bytes()
}

/// Relies on `Rope::len_chars`: the number of characters.
#[verifier::external_body]
pub(crate) fn rope_len_chars(r: &Rope) -> (n: usize)
    ensures
        n == rope_chars(*r).len(),
{
    r.len_chars()
}

/// Relies on `Rope::len_utf16_cu`: the length of the text in UTF-16 code units.
#[verifier::external_body]
pub(crate) fn rope_len_utf16_cu(r: &Rope) -> (n: usize)
    ensures
        n == units_of(rope_chars(*r)),
{
    r.len_utf16_cu()
}

/// Relies on `Rope::len_lines`: one more than the number of line breaks.
#[verifier::external_body]
pub(crate) fn rope_len_lines(r: &Rope) -> (n: usize)
    ensures
        n == line_count(rope_chars(*r)),
{
    r.len_lines()
}

/// Relies on `Rope::line_to_char`: the character index where a line starts.
#[verifier::external_body]
pub(crate) fn rope_line_to_char(r: &Rope, line: usize) -> (c: usize)
    requires
        line < line_count(rope_chars(*r)),
    ensures
        c == line_start(rope_chars(*r), line as int),
{
    r.line_to_char(line)
}

/// Relies on `Rope::line_to_byte`: the byte offset where a line starts.
#[verifier::external_body]
pub(crate) fn rope_line_to_byte(r: &Rope, line: usize) -> (b: usize)
    requires
        line < line_count(rope_chars(*r)),
    ensures
        b == byte_of_char(rope_chars(*r), line_start(rope_chars(*r), line as int)),
{
    r.line_to_byte(line)
}

/// Relies on `Rope::byte_to_char`: the index of the character that a byte
/// falls in.
#[verifier::external_body]
pub(crate) fn rope_byte_to_char(r: &Rope, byte: usize) -> (c: usize)
    requires
        byte <= bytes_of(rope_chars(*r)),
    ensures
        c == chars_in_bytes(rope_chars(*r), byte as int),
{
    r.byte_to_char(byte)
}

/// Relies on `Rope::char_to_byte`: the byte offset of a character index.
#[verifier::external_body]
pub(crate) fn rope_char_to_byte(r: &Rope, c: usize) -> (b: usize)
    requires
        c <= rope_chars(*r).len(),
    ensures
        b == byte_of_char(rope_chars(*r), c as int),
{
    r.char_to_byte(c)
}

/// Relies on `Rope::byte_to_line`: the number of line breaks before a byte.
#[verifier::external_body]
pub(crate) fn rope_byte_to_line(r: &Rope, byte: usize) -> (l: usize)
    requires
        byte <= bytes_of(rope_chars(*r)),
    ensures
        l == breaks_before(rope_chars(*r), chars_in_bytes(rope_chars(*r), byte as int) as int),
{
    r.byte_to_line(byte)
}

/// Relies on `Rope::char_to_utf16_cu`: the UTF-16 offset of a character index.
#[verifier::external_body]
pub(crate) fn rope_char_to_utf16_cu(r: &Rope, c: usize) -> (u: usize)
    requires
        c <= rope_chars(*r).len(),
    ensures
        u == units_of(rope_chars(*r).take(c as int)),
{
    r.char_to_utf16_cu(c)
}

/// Relies on `Rope::utf16_cu_to_char`: the index of the character that a
/// UTF-16 code unit falls in.
#[verifier::external_body]
pub(crate) fn rope_utf16_cu_to_char(r: &Rope, u: usize) -> (c: usize)
    requires
        u <= units_of(rope_chars(*r)),
    ensures
        c == chars_in_units(rope_chars(*r), u as int),
{
    r.utf16_cu_to_char(u)
}

/// Relies on `Rope::remove`: the characters in `start..end` leave the rope.
#[verifier::external_body]
pub(crate) fn rope_remove(r: &mut Rope, start: usize, end: usize)
    requires
        start <= end <= rope_chars(*old(r)).len(),
    ensures
        rope_chars(*final(r)) == rope_chars(*old(r)).take(start as int) + rope_chars(
            *old(r),
        ).skip(end as int),
{
    r.remove(start..end)
}

/// Relies on `Rope::insert`: the text goes in before character index `at`.
#[verifier::external_body]
pub(crate) fn rope_insert(r: &mut Rope, at: usize, s: &str)
    requires
        at <= rope_chars(*old(r)).len(),
    ensures
        rope_chars(*final(r)) == rope_chars(*old(r)).take(at as int) + s@ + rope_chars(
            *old(r),
        ).skip(at as int),
{
    r.insert(at, s)
}

/// Relies on `Rope::byte_slice`: the characters between two character
/// boundaries, handed out one by one.
#[verifier::external_body]
pub(crate) fn rope_byte_slice(r: &Rope, start: usize, end: usize) -> (v: Vec<char>)
    requires
        start <= end <= bytes_of(rope_chars(*r)),
        is_char_boundary(rope_chars(*r), start as int),
        is_char_boundary(rope_chars(*r), end as int),
    ensures
        v@ == rope_chars(*r).subrange(
            chars_in_bytes(rope_chars(*r), start as int) as int,
            chars_in_bytes(rope_chars(*r), end as int) as int,
        ),
{
    r.byte_slice(start..end).chars().collect()
}

// ---------------------------------------------------------------------------
// Reading text.

/// The characters that node `node` of `tree` spans in `text`.
pub fn node_text(tree: &SyntaxTree, node: usize, text: &Rope) -> (r: Vec<char>)
    requires
        tree.has(node as int),
        fits_text(*tree, rope_chars(*text)),
    ensures
        r@ == node_chars(*tree, node as int, rope_chars(*text)),
{
    let n = &tree.nodes[node];
    assert(fits_text(*tree, rope_chars(*text)) ==> n.start_byte <= n.end_byte);
    rope_byte_slice(text, n.start_byte, n.end_byte)
}

/// The length of `text` in UTF-8 bytes.
pub fn text_len_bytes(text: &Rope) -> (n: usize)
    ensures
        n == bytes_of(rope_chars(*text)),
{
    rope_len_bytes(text)
}

/// Whether byte offset `byte` of `text` starts a character or ends the text.
pub fn on_char_boundary(text: &Rope, byte: usize) -> (r: bool)
    requires
        byte <= bytes_of(rope_chars(*text)),
    ensures
        r == is_char_boundary(rope_chars(*text), byte as int),
{
    let c = rope_byte_to_char(text, byte);
    proof {
        lemma_chars_in_bytes_fit(rope_chars(*text), byte as int);
    }
    rope_char_to_byte(text, c) == byte
}

/// Whether `a` holds exactly the characters of `b`.
pub fn chars_eq(a: &Vec<char>, b: &[char]) -> (r: bool)
    ensures
        r == (a@ == b@),
{
    if a.len() != b.len() {
        return false;
    }
    let mut i: usize = 0;
    while i < a.len()
        invariant
            a@.len() == b@.len(),
            i <= a@.len(),
            a@.take(i as int) == b@.take(i as int),
        decreases a@.len() - i,
    {
        if a[i] != b[i] {
            assert(a@.take(i as int + 1)[i as int] != b@.take(i as int + 1)[i as int]);
            return false;
        }
        assert(a@.take(i as int + 1) =~= a@.take(i as int).push(a@[i as int]));
        assert(b@.take(i as int + 1) =~= b@.take(i as int).push(b@[i as int]));
        i = i + 1;
    }
    assert(a@ =~= a@.take(i as int));
    assert(b@ =~= b@.take(i as int));
    true
}


// ---------------------------------------------------------------------------
// Facts about the model.

pub proof fn lemma_bytes_mono(s: Seq<char>, a: int, b: int)
    requires
        0 <= a <= b <= s.len(),
    ensures
        bytes_of(s.take(a)) <= bytes_of(s.take(b)),
        a < b ==> bytes_of(s.take(a)) < bytes_of(s.take(b)),
    decreases b - a,
{
    if a < b {
        lemma_bytes_mono(s, a, b - 1);
        assert(s.take(b).drop_last() =~= s.take(b - 1));
    }
}

pub proof fn lemma_units_mono(s: Seq<char>, a: int, b: int)
    requires
        0 <= a <= b <= s.len(),
    ensures
        units_of(s.take(a)) <= units_of(s.take(b)),
        a < b ==> units_of(s.take(a)) < units_of(s.take(b)),
    decreases b - a,
{
    if a < b {
        lemma_units_mono(s, a, b - 1);
        assert(s.take(b).drop_last() =~= s.take(b - 1));
    }
}

/// The byte offset of a character index leads back to that index.
pub proof fn lemma_bytes_inverse(s: Seq<char>, k: int)
    requires
        0 <= k <= s.len(),
    ensures
        chars_in_bytes(s, bytes_of(s.take(k)) as int) == k,
    decreases s.len(),
{
    if k < s.len() {
        lemma_bytes_mono(s, k, s.len() as int);
        assert(s.take(s.len() as int) =~= s);
        assert(s.drop_last().take(k) =~= s.take(k));
        lemma_bytes_inverse(s.drop_last(), k);
    } else {
        assert(s.take(k) =~= s);
    }
}

/// The UTF-16 offset of a character index leads back to that index.
pub proof fn lemma_units_inverse(s: Seq<char>, k: int)
    requires
        0 <= k <= s.len(),
    ensures
        chars_in_units(s, units_of(s.take(k)) as int) == k,
    decreases s.len(),
{
    if k < s.len() {
        lemma_units_mono(s, k, s.len() as int);
        assert(s.take(s.len() as int) =~= s);
        assert(s.drop_last().take(k) =~= s.take(k));
        lemma_units_inverse(s.drop_last(), k);
    } else {
        assert(s.take(k) =~= s);
    }
}

pub proof fn lemma_chars_in_bytes_mono(s: Seq<char>, b1: int, b2: int)
    requires
        b1 <= b2,
    ensures
        chars_in_bytes(s, b1) <= chars_in_bytes(s, b2),
        chars_in_bytes(s, b2) <= s.len(),
    decreases s.len(),
{
    if s.len() > 0 {
        lemma_chars_in_bytes_mono(s.drop_last(), b1, b2);
    }
}

pub proof fn lemma_chars_in_units_mono(s: Seq<char>, u1: int, u2: int)
    requires
        u1 <= u2,
    ensures
        chars_in_units(s, u1) <= chars_in_units(s, u2),
        chars_in_units(s, u2) <= s.len(),
    decreases s.len(),
{
    if s.len() > 0 {
        lemma_chars_in_units_mono(s.drop_last(), u1, u2);
    }
}

/// The characters that fit in `b` bytes take no more than `b` bytes.
pub proof fn lemma_chars_in_bytes_fit(s: Seq<char>, b: int)
    requires
        b >= 0,
    ensures
        chars_in_bytes(s, b) <= s.len(),
        byte_of_char(s, chars_in_bytes(s, b) as int) <= b,
    decreases s.len(),
{
    if s.len() == 0 || bytes_of(s) <= b {
        assert(s.take(s.len() as int) =~= s);
    } else {
        lemma_chars_in_bytes_fit(s.drop_last(), b);
        let c = chars_in_bytes(s.drop_last(), b) as int;
        assert(s.drop_last().take(c) =~= s.take(c));
    }
}

pub proof fn lemma_breaks_mono(s: Seq<char>, a: int, b: int)
    requires
        a <= b,
    ensures
        breaks_before(s, a) <= breaks_before(s, b),
    decreases b - a,
{
    if a < b {
        lemma_breaks_mono(s, a, b - 1);
    }
}

/// A line has only one start.
pub proof fn lemma_line_start_unique(s: Seq<char>, l: int, k1: int, k2: int)
    requires
        is_line_start(s, l, k1),
        is_line_start(s, l, k2),
    ensures
        k1 == k2,
{
    if k1 < k2 {
        lemma_breaks_mono(s, k1, k2 - 1);
    } else if k2 < k1 {
        lemma_breaks_mono(s, k2, k1 - 1);
    }
}

/// The line that character index `c` lies on exists, and starts at or before `c`.
pub proof fn lemma_line_of_char(s: Seq<char>, c: int)
    requires
        0 <= c <= s.len(),
    ensures
        breaks_before(s, c) < line_count(s),
        is_line_start(s, breaks_before(s, c) as int, line_start(s, breaks_before(s, c) as int)),
        line_start(s, breaks_before(s, c) as int) <= c,
    decreases c,
{
    lemma_breaks_mono(s, c, s.len() as int);
    let l = breaks_before(s, c) as int;
    if c == 0 || break_ends_at(s, c) {
        assert(is_line_start(s, l, c));
        lemma_line_start_unique(s, l, c, line_start(s, l));
    } else {
        lemma_line_of_char(s, c - 1);
    }
}

/// Every line of the text has a start.
pub proof fn lemma_line_exists(s: Seq<char>, l: int)
    requires
        0 <= l < line_count(s),
    ensures
        is_line_start(s, l, line_start(s, l)),
{
    let c = lemma_char_with_breaks(s, l, s.len() as int);
    lemma_line_of_char(s, c);
}

proof fn lemma_char_with_breaks(s: Seq<char>, l: int, c: int) -> (d: int)
    requires
        0 <= l <= breaks_before(s, c),
        0 <= c <= s.len(),
    ensures
        0 <= d <= c,
        breaks_before(s, d) == l,
    decreases c,
{
    if l == breaks_before(s, c) {
        c
    } else {
        lemma_char_with_breaks(s, l, c - 1)
    }
}

// ---------------------------------------------------------------------------
// Positions.

/// The unit in which a protocol position counts columns.
#[derive(Clone, Copy, Debug, PartialEq, Eq, Structural)]
pub enum PositionEncoding {
    Utf8,
    Utf16,
    Utf32,
}

impl Default for PositionEncoding {
    /// UTF-16, the protocol's default when nothing else is agreed.
    fn default() -> (r: PositionEncoding)
        ensures
            r == PositionEncoding::Utf16,
    {
        PositionEncoding::Utf16
    }
}

/// A protocol position: a line and a column counted in the session's unit.
#[derive(Clone, Copy, Debug, PartialEq, Eq, Structural)]
pub struct Position {
    pub line: u32,
    pub character: u32,
}

/// A protocol range: from `start` to `end`.
#[derive(Clone, Copy, Debug, PartialEq, Eq, Structural)]
pub struct Range {
    pub start: Position,
    pub end: Position,
}

/// A row and column as the grammar engine counts them.
#[derive(Clone, Copy, Debug, PartialEq, Eq, Structural)]
pub struct Point {
    pub row: usize,
    pub column: usize,
}

/// Byte offset at which line `l` starts.
pub open spec fn line_start_byte(s: Seq<char>, l: int) -> int {
    byte_of_char(s, line_start(s, l)) as int
}

/// `pos` names an existing line, and its column, counted from the start of
/// that line, stays within the text.
pub open spec fn position_in_text(s: Seq<char>, enc: PositionEncoding, pos: Position) -> bool {
    let ls = line_start(s, pos.line as int);
    &&& pos.line < line_count(s)
    &&& match enc {
        PositionEncoding::Utf8 => line_start_byte(s, pos.line as int) + pos.character <= bytes_of(s),
        PositionEncoding::Utf16 => units_of(s.take(ls)) + pos.character <= units_of(s),
        PositionEncoding::Utf32 => ls + pos.character <= s.len(),
    }
}

/// The byte offset of `pos`: where its line starts, then the column read in
/// the session's unit and turned into bytes.
pub open spec fn position_byte(s: Seq<char>, enc: PositionEncoding, pos: Position) -> int {
    let ls = line_start(s, pos.line as int);
    match enc {
        PositionEncoding::Utf8 => byte_of_char(s, ls) + pos.character,
        PositionEncoding::Utf16 => byte_of_char(
            s,
            chars_in_units(s, units_of(s.take(ls)) + pos.character) as int,
        ) as int,
        PositionEncoding::Utf32 => byte_of_char(s, ls + pos.character) as int,
    }
}

/// The engine point of `pos`: its line, and its column as a count of
/// characters from the start of the line.
pub open spec fn position_point(s: Seq<char>, enc: PositionEncoding, pos: Position) -> Point {
    let ls = line_start(s, pos.line as int);
    Point {
        row: pos.line as usize,
        column: (match enc {
            PositionEncoding::Utf8 => chars_in_bytes(s, byte_of_char(s, ls) + pos.character) - ls,
            PositionEncoding::Utf16 => chars_in_units(s, units_of(s.take(ls)) + pos.character) - ls,
            PositionEncoding::Utf32 => pos.character as int,
        }) as usize,
    }
}

/// The distance of byte `b` from the start of its line, in the session's unit.
pub open spec fn byte_column(s: Seq<char>, enc: PositionEncoding, b: int) -> int {
    let c = chars_in_bytes(s, b) as int;
    let ls = line_start(s, breaks_before(s, c) as int);
    match enc {
        PositionEncoding::Utf8 => b - byte_of_char(s, ls),
        PositionEncoding::Utf16 => units_of(s.take(c)) - units_of(s.take(ls)),
        PositionEncoding::Utf32 => c - ls,
    }
}

/// The protocol position of byte `b`: the number of line breaks before it,
/// and its distance from the start of its line in the session's unit, each
/// cut to the protocol's 32 bits.
pub open spec fn byte_position(s: Seq<char>, enc: PositionEncoding, b: int) -> Position {
    Position {
        line: breaks_before(s, chars_in_bytes(s, b) as int) as u32,
        character: byte_column(s, enc, b) as u32,
    }
}

/// The engine point of byte `b`: its line, and the number of characters
/// between the start of that line and the character that `b` falls in.
pub open spec fn byte_point(s: Seq<char>, b: int) -> Point {
    let c = chars_in_bytes(s, b) as int;
    let l = breaks_before(s, c) as int;
    Point { row: l as usize, column: (c - line_start(s, l)) as usize }
}

impl PositionEncoding {
    /// The byte offset in `text` of the protocol position `pos`.
    pub fn position_to_byte(self, text: &Rope, pos: Position) -> (r: usize)
        requires
            position_in_text(rope_chars(*text), self, pos),
        ensures
            r == position_byte(rope_chars(*text), self, pos),
            r <= bytes_of(rope_chars(*text)),
    {
        let ghost s = rope_chars(*text);
        let line = pos.line as usize;
        proof {
            lemma_line_exists(s, line as int);
        }
        match self {
            PositionEncoding::Utf8 => {
                let _ = rope_len_bytes(text);
                rope_line_to_byte(text, line) + pos.character as usize
            },
            PositionEncoding::Utf16 => {
                let lc = rope_line_to_char(text, line);
                let lu = rope_char_to_utf16_cu(text, lc);
                let _ = rope_len_utf16_cu(text);
                let c = rope_utf16_cu_to_char(text, lu + pos.character as usize);
                proof {
                    lemma_chars_in_units_mono(s, 0, (lu + pos.character) as int);
                    assert(s.take(s.len() as int) =~= s);
                    lemma_bytes_mono(s, c as int, s.len() as int);
                }
                rope_char_to_byte(text, c)
            },
            PositionEncoding::Utf32 => {
                let lc = rope_line_to_char(text, line);
                let _ = rope_len_chars(text);
                proof {
                    assert(s.take(s.len() as int) =~= s);
                    lemma_bytes_mono(s, (lc + pos.character) as int, s.len() as int);
                }
                rope_char_to_byte(text, lc + pos.character as usize)
            },
        }
    }

    /// The engine point in `text` of the protocol position `pos`. The column
    /// counts characters, not display cells: a character wider than one cell
    /// still counts as one.
    pub fn position_to_point(self, text: &Rope, pos: Position) -> (r: Point)
        requires
            position_in_text(rope_chars(*text), self, pos),
        ensures
            r == position_point(rope_chars(*text), self, pos),
    {
        let ghost s = rope_chars(*text);
        let line = pos.line as usize;
        proof {
            lemma_line_exists(s, line as int);
        }
        let column = match self {
            PositionEncoding::Utf8 => {
                let lc = rope_line_to_char(text, line);
                let lb = rope_line_to_byte(text, line);
                let _ = rope_len_bytes(text);
                let c = rope_byte_to_char(text, lb + pos.character as usize);
                proof {
                    lemma_bytes_inverse(s, lc as int);
                    lemma_chars_in_bytes_mono(s, lb as int, (lb + pos.character) as int);
                }
                c - lc
            },
            PositionEncoding::Utf16 => {
                let lc = rope_line_to_char(text, line);
                let lu = rope_char_to_utf16_cu(text, lc);
                let _ = rope_len_utf16_cu(text);
                let c = rope_utf16_cu_to_char(text, lu + pos.character as usize);
                proof {
                    lemma_units_inverse(s, lc as int);
                    lemma_chars_in_units_mono(s, lu as int, (lu + pos.character) as int);
                }
                c - lc
            },
            PositionEncoding::Utf32 => pos.character as usize,
        };
        Point { row: line, column }
    }

    /// The protocol position in `text` of byte offset `byte`.
    pub fn byte_to_position(self, text: &Rope, byte: usize) -> (r: Position)
        requires
            byte <= bytes_of(rope_chars(*text)),
        ensures
            r == byte_position(rope_chars(*text), self, byte as int),
    {
        let ghost s = rope_chars(*text);
        let line = rope_byte_to_line(text, byte);
        let c = rope_byte_to_char(text, byte);
        proof {
            lemma_chars_in_bytes_fit(s, byte as int);
            lemma_line_of_char(s, c as int);
        }
        let character = match self {
            PositionEncoding::Utf8 => {
                let lb = rope_line_to_byte(text, line);
                proof {
                    lemma_bytes_mono(s, line_start(s, line as int), c as int);
                }
                byte - lb
            },
            PositionEncoding::Utf16 => {
                let lc = rope_line_to_char(text, line);
                let cu = rope_char_to_utf16_cu(text, c);
                let lu = rope_char_to_utf16_cu(text, lc);
                proof {
                    lemma_units_mono(s, lc as int, c as int);
                }
                cu - lu
            },
            PositionEncoding::Utf32 => {
                let lc = rope_line_to_char(text, line);
                c - lc
            },
        };
        Position { line: line as u32, character: character as u32 }
    }
}

/// The engine point in `text` of byte offset `byte`.
pub fn byte_to_point(text: &Rope, byte: usize) -> (r: Point)
    requires
        byte <= bytes_of(rope_chars(*text)),
    ensures
        r == byte_point(rope_chars(*text), byte as int),
{
    let ghost s = rope_chars(*text);
    let row = rope_byte_to_line(text, byte);
    let c = rope_byte_to_char(text, byte);
    proof {
        lemma_chars_in_bytes_fit(s, byte as int);
        lemma_line_of_char(s, c as int);
    }
    let lc = rope_line_to_char(text, row);
    Point { row, column: c - lc }
}


/// Byte offsets and protocol positions agree: for each of the three
/// encodings, the position of a byte offset that starts a character (or ends
/// the text) names a place in the text, and turns back into that offset. The
/// line number and column must fit the protocol's 32-bit fields.
pub proof fn lemma_position_round_trip(s: Seq<char>, enc: PositionEncoding, b: int)
    requires
        0 <= b <= bytes_of(s),
        is_char_boundary(s, b),
        breaks_before(s, chars_in_bytes(s, b) as int) <= u32::MAX,
        byte_column(s, enc, b) <= u32::MAX,
    ensures
        position_in_text(s, enc, byte_position(s, enc, b)),
        position_byte(s, enc, byte_position(s, enc, b)) == b,
{
    let c = chars_in_bytes(s, b) as int;
    lemma_chars_in_bytes_fit(s, b);
    lemma_line_of_char(s, c);
    let l = breaks_before(s, c) as int;
    let ls = line_start(s, l);
    assert(s.take(s.len() as int) =~= s);
    match enc {
        PositionEncoding::Utf8 => {
            lemma_bytes_mono(s, ls, c);
        },
        PositionEncoding::Utf16 => {
            lemma_units_mono(s, ls, c);
            lemma_units_mono(s, c, s.len() as int);
            lemma_units_inverse(s, c);
        },
        PositionEncoding::Utf32 => {},
    }
}

/// The UTF-8 encoding of `x` is `bytes_of(x)` bytes long.
pub proof fn lemma_utf8_len(x: Seq<char>)
    ensures
        vstd::utf8::encode_utf8(x).len() == bytes_of(x),
    decreases x.len(),
{
    if x.len() > 0 {
        lemma_utf8_len(x.drop_first());
        lemma_bytes_concat(seq![x[0]], x.drop_first());
        assert(seq![x[0]] + x.drop_first() =~= x);
        assert(seq![x[0]].drop_last() =~= Seq::<char>::empty());
        assert(bytes_of(seq![x[0]].drop_last()) == 0);
        assert(bytes_of(seq![x[0]]) == char_bytes(x[0]));
        vstd::utf8::char_is_scalar(x[0]);
        assert(vstd::utf8::encode_scalar(x[0] as u32).len() == char_bytes(x[0]));
    }
}

pub proof fn lemma_bytes_concat(a: Seq<char>, b: Seq<char>)
    ensures
        bytes_of(a + b) == bytes_of(a) + bytes_of(b),
    decreases b.len(),
{
    if b.len() == 0 {
        assert(a + b =~= a);
    } else {
        lemma_bytes_concat(a, b.drop_last());
        assert((a + b).drop_last() =~= a + b.drop_last());
    }
}


// ---------------------------------------------------------------------------
// Negotiation.

pub open spec fn utf8_name() -> Seq<char> {
    seq!['u', 't', 'f', '-', '8']
}

/// The encoding that a protocol encoding name stands for.
pub open spec fn encoding_named(w: Seq<char>) -> Option<PositionEncoding> {
    if w == utf8_name() {
        Some(PositionEncoding::Utf8)
    } else if w == seq!['u', 't', 'f', '-', '1', '6'] {
        Some(PositionEncoding::Utf16)
    } else if w == seq!['u', 't', 'f', '-', '3', '2'] {
        Some(PositionEncoding::Utf32)
    } else {
        None
    }
}

/// The encoding chosen with a peer that advertises the encodings `offered`:
/// UTF-8 if offered, else the first one offered if it is known, else UTF-16.
pub open spec fn negotiated(offered: Option<Seq<Vec<char>>>) -> PositionEncoding {
    match offered {
        None => PositionEncoding::Utf16,
        Some(ks) => if exists|j: int| 0 <= j < ks.len() && (#[trigger] ks[j])@ == utf8_name() {
            PositionEncoding::Utf8
        } else if ks.len() > 0 && encoding_named(ks[0]@) is Some {
            encoding_named(ks[0]@)->Some_0
        } else {
            PositionEncoding::Utf16
        },
    }
}

impl PositionEncoding {
    /// The encoding that a protocol encoding name stands for, if any.
    pub fn from_name(w: &Vec<char>) -> (r: Option<PositionEncoding>)
        ensures
            r == encoding_named(w@),
    {
        if chars_eq(w, &['u', 't', 'f', '-', '8']) {
            Some(PositionEncoding::Utf8)
        } else if chars_eq(w, &['u', 't', 'f', '-', '1', '6']) {
            Some(PositionEncoding::Utf16)
        } else if chars_eq(w, &['u', 't', 'f', '-', '3', '2']) {
            Some(PositionEncoding::Utf32)
        } else {
            None
        }
    }

    /// Chooses the session's encoding from the encodings that the peer
    /// advertises, if it advertises any.
    pub fn negotiate(offered: &Option<Vec<Vec<char>>>) -> (r: PositionEncoding)
        ensures
            r == negotiated(
                match offered {
                    Some(v) => Some(v@),
                    None => None,
                },
            ),
    {
        let ks = match offered {
            Some(v) => v,
            None => {
                return PositionEncoding::Utf16;
            },
        };
        let mut j: usize = 0;
        while j < ks.len()
            invariant
                j <= ks@.len(),
                offered matches Some(v) && v@ == ks@,
                forall|m: int| 0 <= m < j ==> (#[trigger] ks@[m])@ != utf8_name(),
            decreases ks@.len() - j,
        {
            if chars_eq(&ks[j], &['u', 't', 'f', '-', '8']) {
                assert(ks@[j as int]@ == utf8_name());
                return PositionEncoding::Utf8;
            }
            j = j + 1;
        }
        if ks.len() > 0 {
            match PositionEncoding::from_name(&ks[0]) {
                Some(e) => e,
                None => PositionEncoding::Utf16,
            }
        } else {
            PositionEncoding::Utf16
        }
    }
}

} // verus!
