//! Scrollback search for the terminal grid.
//!
//! Provides substring search (case-insensitive) across all lines in the
//! terminal, including scrollback history above the visible viewport.

use vstd::prelude::*;
use vstd::utf8::{encode_utf8, is_char_boundary, valid_utf8};

verus! {

broadcast use vstd::utf8::encode_utf8_valid_utf8;

/// Direction in which to advance through matches.
#[derive(Debug, Clone, Copy, PartialEq, Eq, Structural)]
pub enum SearchDirection {
    Forward,
    Backward,
}

/// A single match within the terminal grid.
#[derive(Debug, Clone, Copy, PartialEq, Eq, Structural)]
pub struct SearchMatch {
    /// Line index (same coordinate system as the terminal grid's lines).
    /// Negative values represent scrollback history; 0 is the topmost visible
    /// line.
    pub line: i32,
    /// Starting column of the match (inclusive).
    pub start_col: usize,
    /// Ending column of the match (exclusive).
    pub end_col: usize,
}

/// The characters of a terminal grid as search reads them: one string per
/// line, from the topmost line of the scrollback down to the bottommost
/// visible line, each holding the character of every column.
pub struct GridText {
    /// The index of the first line (negative when there is scrollback).
    pub topmost_line: i32,
    /// The lines, top to bottom.
    pub lines: Vec<String>,
}

impl GridText {
    /// Every line index fits in an `i32`.
    pub open spec fn wf(&self) -> bool {
        self.topmost_line + self.lines@.len() <= i32::MAX + 1
    }

    pub open spec fn line_texts(&self) -> Seq<Seq<char>> {
        self.lines@.map_values(|s: String| s@)
    }
}

// ---------------------------------------------------------------------------
// Lowercasing
// ---------------------------------------------------------------------------

/// The text that `str::to_lowercase` makes of some characters.
pub uninterp spec fn lowercase(s: Seq<char>) -> Seq<char>;

/// ASCII lowercasing of one character: `A`-`Z` become `a`-`z`.
pub open spec fn ascii_lower(c: char) -> char {
    if 'A' <= c && c <= 'Z' {
        ((c as u32) + 32) as char
    } else {
        c
    }
}

/// `str::to_lowercase`: the lowercase equivalent of the text, as defined by
/// the Unicode `Lowercase` property, whose mapping of ASCII text is ASCII
/// lowercasing. What it is for other characters is left to the name
/// `lowercase`.
#[verifier::external_body]
fn to_lowercase(s: &str) -> (r: String)
    ensures
        r@ == lowercase(s@),
        (forall|i: int| 0 <= i < s@.len() ==> (s@[i] as u32) < 128) ==> r@ == s@.map_values(
            |c: char| ascii_lower(c),
        ),
{
    s.to_lowercase()
}

// ---------------------------------------------------------------------------
// Searching, as mathematics
// ---------------------------------------------------------------------------

/// `needle` occurs in `hay` at byte `p`.
pub open spec fn occurs_at(hay: Seq<u8>, needle: Seq<u8>, p: int) -> bool {
    0 <= p && p + needle.len() <= hay.len() && hay.subrange(p, p + needle.len()) == needle
}

/// The first byte at or after `from` where `needle` occurs in `hay`.
pub open spec fn first_occurrence(hay: Seq<u8>, needle: Seq<u8>, from: int) -> Option<int>
    decreases hay.len() + 1 - from,
{
    if from < 0 || from > hay.len() {
        None
    } else if occurs_at(hay, needle, from) {
        Some(from)
    } else {
        first_occurrence(hay, needle, from + 1)
    }
}

/// A found occurrence lies at or after `from`, and none lies between.
pub proof fn lemma_first_occurrence(hay: Seq<u8>, needle: Seq<u8>, from: int)
    requires
        0 <= from,
    ensures
        first_occurrence(hay, needle, from) matches Some(p) ==> from <= p <= hay.len()
            && occurs_at(hay, needle, p) && (forall|q: int|
            from <= q < p ==> !#[trigger] occurs_at(hay, needle, q)),
        first_occurrence(hay, needle, from) is None ==> forall|q: int|
            from <= q ==> !#[trigger] occurs_at(hay, needle, q),
    decreases hay.len() + 1 - from,
{
    if 0 <= from <= hay.len() && !occurs_at(hay, needle, from) {
        lemma_first_occurrence(hay, needle, from + 1);
    }
}

/// The starts of the non-overlapping occurrences of `needle` in `hay` from
/// byte `from` on, each search resuming where the previous occurrence ends.
pub open spec fn scan(hay: Seq<u8>, needle: Seq<u8>, from: int) -> Seq<int>
    decreases hay.len() + 1 - from,
{
    if needle.len() == 0 || from < 0 || from > hay.len() {
        seq![]
    } else {
        match first_occurrence(hay, needle, from) {
            None => seq![],
            Some(p) => {
                proof {
                    lemma_first_occurrence(hay, needle, from);
                }
                seq![p] + scan(hay, needle, p + needle.len())
            },
        }
    }
}

/// The bytes of a cell's character once lowercased.
pub open spec fn cell_bytes(c: char) -> Seq<u8> {
    encode_utf8(lowercase(seq![c]))
}

/// The lowercased bytes of a line, cell after cell.
pub open spec fn lowered(cells: Seq<char>) -> Seq<u8>
    decreases cells.len(),
{
    if cells.len() == 0 {
        seq![]
    } else {
        lowered(cells.drop_last()) + cell_bytes(cells.last())
    }
}

/// For each byte of `lowered(cells)`, the column of the cell it comes from.
pub open spec fn byte_cols(cells: Seq<char>) -> Seq<int>
    decreases cells.len(),
{
    if cells.len() == 0 {
        seq![]
    } else {
        byte_cols(cells.drop_last()) + Seq::new(
            cell_bytes(cells.last()).len(),
            |k: int| cells.len() - 1,
        )
    }
}

/// The bytes of a whole line once lowercased, as the search reads it.
pub open spec fn line_bytes(cells: Seq<char>) -> Seq<u8> {
    encode_utf8(lowercase(cells))
}

/// The column of byte `b` of the lowercased line: the cell whose own
/// lowercasing takes that byte's place, or `b` itself past the bytes that
/// the cells account for.
pub open spec fn col_at(cells: Seq<char>, b: int) -> int {
    if 0 <= b < byte_cols(cells).len() {
        byte_cols(cells)[b]
    } else {
        b
    }
}

/// The match of `n` lowercased bytes at byte `p` of line `line`: from the
/// column of its first byte to just after the column of its last.
pub open spec fn match_at(line: int, cells: Seq<char>, p: int, n: nat) -> SearchMatch {
    SearchMatch {
        line: line as i32,
        start_col: col_at(cells, p) as usize,
        end_col: (col_at(cells, p + n - 1) + 1) as usize,
    }
}

/// The matches of `needle` on one line.
pub open spec fn line_matches(line: int, cells: Seq<char>, needle: Seq<u8>) -> Seq<SearchMatch> {
    scan(line_bytes(cells), needle, 0).map_values(|p: int| match_at(line, cells, p, needle.len()))
}

/// All matches of `needle` in `lines` (the first at line `top`), line by line.
pub open spec fn grid_scan(lines: Seq<Seq<char>>, top: int, needle: Seq<u8>) -> Seq<SearchMatch>
    decreases lines.len(),
{
    if lines.len() == 0 {
        seq![]
    } else {
        grid_scan(lines.drop_last(), top, needle) + line_matches(
            top + lines.len() - 1,
            lines.last(),
            needle,
        )
    }
}

/// The matches that a search for `query` finds in `grid`: the occurrences of
/// the lowercased query in each lowercased line, reported by the columns of
/// the cells they cover.
pub open spec fn search_result(grid: GridText, query: Seq<char>) -> Seq<SearchMatch> {
    if query.len() == 0 {
        seq![]
    } else {
        grid_scan(grid.line_texts(), grid.topmost_line as int, encode_utf8(lowercase(query)))
    }
}

/// Every character of the text is ASCII.
pub open spec fn ascii_text(s: Seq<char>) -> bool {
    forall|i: int| 0 <= i < s.len() ==> (#[trigger] s[i] as u32) < 128
}

/// What lowercasing is known to make of `cells` when it is ASCII, and of
/// each ASCII character of it.
pub open spec fn ascii_lowering_known(cells: Seq<char>) -> bool {
    &&& ascii_text(cells) ==> lowercase(cells) == cells.map_values(|c: char| ascii_lower(c))
    &&& forall|k: int|
        0 <= k < cells.len() && (#[trigger] cells[k] as u32) < 128 ==> lowercase(seq![cells[k]])
            == seq![ascii_lower(cells[k])]
}

/// ASCII text lowercased as a whole is its ASCII bytes.
proof fn lemma_ascii_text_bytes(q: Seq<char>)
    requires
        ascii_text(q),
        lowercase(q) == q.map_values(|c: char| ascii_lower(c)),
    ensures
        encode_utf8(lowercase(q)) == ascii_bytes(q),
{
    let x = q.map_values(|c: char| ascii_lower(c));
    assert(vstd::utf8::is_ascii_chars(x)) by {
        assert forall|i: int| 0 <= i < x.len() implies '\0' <= #[trigger] x[i] <= '\u{7f}' by {
            assert((q[i] as u32) < 128);
        }
    }
    vstd::utf8::is_ascii_chars_encode_utf8(x);
    assert(encode_utf8(x) =~= ascii_bytes(q));
}

/// ASCII text lowercased, as bytes.
pub open spec fn ascii_bytes(s: Seq<char>) -> Seq<u8> {
    s.map_values(|c: char| ascii_lower(c) as u8)
}

/// The matches of `needle` on one ASCII line, one column per byte.
pub open spec fn ascii_line_matches(line: int, cells: Seq<char>, needle: Seq<u8>) -> Seq<SearchMatch> {
    scan(ascii_bytes(cells), needle, 0).map_values(
        |p: int| SearchMatch { line: line as i32, start_col: p as usize, end_col: (p + needle.len()) as usize },
    )
}

/// All matches of `needle` in ASCII `lines` (the first at line `top`).
pub open spec fn ascii_scan(lines: Seq<Seq<char>>, top: int, needle: Seq<u8>) -> Seq<SearchMatch>
    decreases lines.len(),
{
    if lines.len() == 0 {
        seq![]
    } else {
        ascii_scan(lines.drop_last(), top, needle) + ascii_line_matches(
            top + lines.len() - 1,
            lines.last(),
            needle,
        )
    }
}

/// An ASCII character lowercases to its ASCII lowercase, one byte.
proof fn lemma_ascii_cell(c: char)
    requires
        (c as u32) < 128,
        lowercase(seq![c]) == seq![ascii_lower(c)],
    ensures
        cell_bytes(c) == seq![ascii_lower(c) as u8],
{
    let x = seq![ascii_lower(c)];
    assert(vstd::utf8::is_ascii_chars(x));
    vstd::utf8::is_ascii_chars_encode_utf8(x);
    assert(encode_utf8(x) =~= seq![ascii_lower(c) as u8]);
}

/// An ASCII line lowercased cell by cell gives one byte per column.
proof fn lemma_ascii_lowered_cells(cells: Seq<char>)
    requires
        ascii_text(cells),
        forall|k: int|
            0 <= k < cells.len() && (#[trigger] cells[k] as u32) < 128 ==> lowercase(seq![cells[k]])
                == seq![ascii_lower(cells[k])],
    ensures
        lowered(cells) == ascii_bytes(cells),
        byte_cols(cells) == Seq::new(cells.len(), |k: int| k),
    decreases cells.len(),
{
    if cells.len() > 0 {
        let front = cells.drop_last();
        assert forall|k: int| 0 <= k < front.len() implies (#[trigger] front[k] as u32) < 128 by {
            assert(front[k] == cells[k]);
        }
        assert forall|k: int| 0 <= k < front.len() && (#[trigger] front[k] as u32) < 128 implies lowercase(
            seq![front[k]],
        ) == seq![ascii_lower(front[k])] by {
            assert(front[k] == cells[k]);
        }
        lemma_ascii_lowered_cells(front);
        let c = cells.last();
        assert(c == cells[cells.len() - 1]);
        lemma_ascii_cell(c);
        assert(lowered(cells) =~= ascii_bytes(cells));
        assert(byte_cols(cells) =~= Seq::new(cells.len(), |k: int| k));
    }
}

/// On an ASCII line, the matches are reported one column per byte.
proof fn lemma_ascii_line(line: int, cells: Seq<char>, needle: Seq<u8>)
    requires
        ascii_text(cells),
        ascii_lowering_known(cells),
    ensures
        line_matches(line, cells, needle) == ascii_line_matches(line, cells, needle),
{
    lemma_ascii_lowered_cells(cells);
    lemma_ascii_text_bytes(cells);
    let hay = ascii_bytes(cells);
    lemma_scan_occurrences(hay, needle, 0);
    let ps = scan(hay, needle, 0);
    assert forall|i: int| 0 <= i < ps.len() implies match_at(line, cells, #[trigger] ps[i], needle.len())
        == (SearchMatch {
        line: line as i32,
        start_col: ps[i] as usize,
        end_col: (ps[i] + needle.len()) as usize,
    }) by {
        assert(byte_cols(cells)[ps[i]] == ps[i]);
        assert(byte_cols(cells)[ps[i] + needle.len() - 1] == ps[i] + needle.len() - 1);
        assert(col_at(cells, ps[i]) == ps[i]);
        assert(col_at(cells, ps[i] + needle.len() - 1) == ps[i] + needle.len() - 1);
    }
    assert(line_matches(line, cells, needle) =~= ascii_line_matches(line, cells, needle));
}

/// On ASCII lines, the grid's matches are reported one column per byte.
proof fn lemma_ascii_grid(lines: Seq<Seq<char>>, top: int, needle: Seq<u8>)
    requires
        forall|i: int|
            0 <= i < lines.len() ==> ascii_text(#[trigger] lines[i]) && ascii_lowering_known(lines[i]),
    ensures
        grid_scan(lines, top, needle) == ascii_scan(lines, top, needle),
    decreases lines.len(),
{
    if lines.len() > 0 {
        let front = lines.drop_last();
        assert forall|i: int| 0 <= i < front.len() implies ascii_text(#[trigger] front[i])
            && ascii_lowering_known(front[i]) by {
            assert(front[i] == lines[i]);
        }
        lemma_ascii_grid(front, top, needle);
        assert(lines.last() == lines[lines.len() - 1]);
        lemma_ascii_line(top + lines.len() - 1, lines.last(), needle);
    }
}

proof fn lemma_byte_cols(cells: Seq<char>)
    ensures
        byte_cols(cells).len() == lowered(cells).len(),
        forall|k: int|
            0 <= k < byte_cols(cells).len() ==> 0 <= #[trigger] byte_cols(cells)[k] < cells.len(),
    decreases cells.len(),
{
    if cells.len() > 0 {
        lemma_byte_cols(cells.drop_last());
    }
}

// ---------------------------------------------------------------------------
// Searching
// ---------------------------------------------------------------------------

/// Whether `needle` occurs in `hay` at byte `p`.
fn occurs_at_exec(hay: &[u8], needle: &[u8], p: usize) -> (b: bool)
    ensures
        b == occurs_at(hay@, needle@, p as int),
{
    let n = hay.len();
    if p > n || needle.len() > n - p {
        return false;
    }
    let mut k: usize = 0;
    while k < needle.len()
        invariant
            n == hay@.len(),
            p + needle@.len() <= hay@.len(),
            k <= needle@.len(),
            forall|j: int| 0 <= j < k ==> hay@[p + j] == needle@[j],
        decreases needle.len() - k,
    {
        if hay[p + k] != needle[k] {
            assert(hay@.subrange(p as int, p + needle@.len())[k as int] != needle@[k as int]);
            return false;
        }
        k += 1;
    }
    assert(hay@.subrange(p as int, p + needle@.len()) =~= needle@);
    true
}

/// The first byte at or after `from` where `needle` occurs in `hay`.
fn find_from(hay: &[u8], needle: &[u8], from: usize) -> (r: Option<usize>)
    requires
        from <= hay@.len(),
    ensures
        r matches Some(p) ==> first_occurrence(hay@, needle@, from as int) == Some(p as int),
        r is None ==> first_occurrence(hay@, needle@, from as int) is None,
{
    let n = hay.len();
    let mut p = from;
    loop
        invariant
            n == hay@.len(),
            from <= p <= n,
            first_occurrence(hay@, needle@, from as int) == first_occurrence(
                hay@,
                needle@,
                p as int,
            ),
        decreases n - p,
    {
        if occurs_at_exec(hay, needle, p) {
            return Some(p);
        }
        if p == n {
            assert(first_occurrence(hay@, needle@, n + 1) is None);
            return None;
        }
        p += 1;
    }
}

/// A line lowercased as a whole, with the column of each byte as the
/// lowercasing of each cell on its own places it.
fn lower_line(line: &str) -> (r: (String, Vec<usize>))
    ensures
        r.0@ == lowercase(line@),
        r.1@.map_values(|c: usize| c as int) == byte_cols(line@),
        line@.len() <= usize::MAX,
        ascii_lowering_known(line@),
{
    let whole = to_lowercase(line);
    let cells = crate::text::chars_of(line);
    let mut cols: Vec<usize> = Vec::new();
    for k in 0..cells.len()
        invariant
            cells@ == line@,
            cols@.map_values(|c: usize| c as int) == byte_cols(cells@.take(k as int)),
            forall|j: int|
                0 <= j < k && (#[trigger] cells@[j] as u32) < 128 ==> lowercase(seq![cells@[j]])
                    == seq![ascii_lower(cells@[j])],
    {
        let ghost pre = cells@.take(k as int);
        assert(cells@.take(k + 1).drop_last() =~= pre);
        assert(cells@.take(k + 1).last() == cells@[k as int]);
        let mut one = String::new();
        crate::text::push_char(&mut one, cells[k]);
        assert(one@ =~= seq![cells@[k as int]]);
        let lower = to_lowercase(one.as_str());
        proof {
            if (cells@[k as int] as u32) < 128 {
                assert(one@.map_values(|c: char| ascii_lower(c)) =~= seq![ascii_lower(cells@[k as int])]);
            }
        }
        let bytes = lower.as_str().as_bytes();
        let ghost cols0 = cols@.map_values(|c: usize| c as int);
        for b in 0..bytes.len()
            invariant
                cols@.map_values(|c: usize| c as int) == cols0 + Seq::new(b as nat, |t: int| k as int),
        {
            let ghost m0 = cols@.map_values(|c: usize| c as int);
            cols.push(k);
            assert(cols@.map_values(|c: usize| c as int) =~= m0.push(k as int));
            assert(Seq::new((b + 1) as nat, |t: int| k as int) =~= Seq::new(
                b as nat,
                |t: int| k as int,
            ).push(k as int));
            assert(cols@.map_values(|c: usize| c as int) =~= cols0 + Seq::new(
                (b + 1) as nat,
                |t: int| k as int,
            ));
        }
        assert(byte_cols(cells@.take(k + 1)) =~= cols0 + Seq::new(bytes@.len(), |t: int| k as int));
    }
    assert(cells@.take(cells@.len() as int) =~= cells@);
    (whole, cols)
}

/// The starts of the non-overlapping occurrences of `needle` in `hay`.
fn scan_line(hay: &[u8], needle: &[u8]) -> (r: Vec<usize>)
    ensures
        r@.map_values(|p: usize| p as int) == scan(hay@, needle@, 0),
{
    let n = hay.len();
    let mut found: Vec<usize> = Vec::new();
    if needle.len() == 0 {
        return found;
    }
    let mut from: usize = 0;
    loop
        invariant
            n == hay@.len(),
            needle@.len() > 0,
            from <= n,
            scan(hay@, needle@, 0) == found@.map_values(|p: usize| p as int) + scan(
                hay@,
                needle@,
                from as int,
            ),
        decreases n + 1 - from,
    {
        match find_from(hay, needle, from) {
            None => {
                assert(found@.map_values(|p: usize| p as int) + Seq::<int>::empty()
                    =~= found@.map_values(|p: usize| p as int));
                return found;
            },
            Some(p) => {
                proof {
                    lemma_first_occurrence(hay@, needle@, from as int);
                }
                let ghost before = found@.map_values(|p: usize| p as int);
                found.push(p);
                assert(found@.map_values(|p: usize| p as int) =~= before.push(p as int));
                assert(before + (seq![p as int] + scan(hay@, needle@, p + needle@.len()))
                    =~= before.push(p as int) + scan(hay@, needle@, p + needle@.len()));
                from = p + needle.len();
            },
        }
    }
}

/// Persistent search state that tracks the current query, collected matches,
/// and the highlighted (current) match index.
#[derive(Debug, Clone)]
pub struct SearchState {
    /// The active search query.
    pub query: String,
    /// All matches found by the last search invocation.
    pub matches: Vec<SearchMatch>,
    /// Index into `matches` for the currently highlighted match.
    pub current_match: Option<usize>,
    /// Direction used when advancing with `next_match` / `prev_match`.
    pub direction: SearchDirection,
}

impl SearchState {
    /// Create a new, empty search state.
    pub fn new() -> (s: Self)
        ensures
            s.query@ == Seq::<char>::empty(),
            s.matches@ == Seq::<SearchMatch>::empty(),
            s.current_match is None,
            s.direction == SearchDirection::Forward,
    {
        Self {
            query: String::new(),
            matches: Vec::new(),
            current_match: None,
            direction: SearchDirection::Forward,
        }
    }

    /// Search through every line of the grid (including scrollback) for
    /// case-insensitive substring matches of `query`.
    ///
    /// Each line and the query are lowercased as a whole. A match is
    /// reported by the columns of the cells it covers: the lowercasing of
    /// each cell on its own tells how many bytes of the lowercased line it
    /// takes.
    ///
    /// The results are stored in `self.matches` and `self.current_match` is
    /// reset to the first match (if any). The query is also saved in
    /// `self.query`.
    pub fn search(&mut self, grid: &GridText, query: &str) -> (found: Vec<SearchMatch>)
        requires
            grid.wf(),
        ensures
            final(self).query@ == query@,
            final(self).direction == old(self).direction,
            found@ == search_result(*grid, query@),
            final(self).matches@ == found@,
            final(self).current_match == (if found@.len() > 0 {
                Some(0usize)
            } else {
                None
            }),
            query@.len() > 0 ==> forall|i: int|
                0 <= i < grid.lines@.len() ==> (#[trigger] grid.line_texts()[i]).len() <= usize::MAX,
            ascii_text(query@) && (forall|i: int|
                0 <= i < grid.lines@.len() ==> ascii_text(#[trigger] grid.line_texts()[i]))
                ==> found@ == (if query@.len() == 0 {
                Seq::<SearchMatch>::empty()
            } else {
                ascii_scan(grid.line_texts(), grid.topmost_line as int, ascii_bytes(query@))
            }),
    {
        self.query = query.to_owned();
        self.matches.clear();
        self.current_match = None;
        if query.is_empty() {
            return Vec::new();
        }
        let lower = to_lowercase(query);
        let needle = lower.as_str().as_bytes();
        let found = Self::scan_grid(grid, needle);
        proof {
            if ascii_text(query@) && (forall|i: int|
                0 <= i < grid.lines@.len() ==> ascii_text(#[trigger] grid.line_texts()[i])) {
                lemma_ascii_text_bytes(query@);
                lemma_ascii_grid(grid.line_texts(), grid.topmost_line as int, needle@);
            }
        }
        self.matches = copy_matches(&found);
        if self.matches.len() > 0 {
            self.current_match = Some(0);
        }
        found
    }

    /// Advance to the next match (wrapping around at the end).
    pub fn next_match(&mut self)
        requires
            old(self).matches@.len() > 0 ==> old(self).current_match != Some(usize::MAX),
        ensures
            final(self).query == old(self).query,
            final(self).matches == old(self).matches,
            final(self).direction == old(self).direction,
            final(self).current_match == next_index(
                old(self).current_match,
                old(self).matches@.len(),
            ),
    {
        if self.matches.is_empty() {
            return;
        }
        self.current_match = Some(
            match self.current_match {
                Some(idx) => (idx + 1) % self.matches.len(),
                None => 0,
            },
        );
    }

    /// Move to the previous match (wrapping around at the beginning).
    pub fn prev_match(&mut self)
        ensures
            final(self).query == old(self).query,
            final(self).matches == old(self).matches,
            final(self).direction == old(self).direction,
            final(self).current_match == prev_index(
                old(self).current_match,
                old(self).matches@.len(),
            ),
    {
        if self.matches.is_empty() {
            return;
        }
        self.current_match = Some(
            match self.current_match {
                Some(0) => self.matches.len() - 1,
                Some(idx) => idx - 1,
                None => self.matches.len() - 1,
            },
        );
    }

    /// Return a reference to the currently highlighted match, if any.
    pub fn current(&self) -> (r: Option<&SearchMatch>)
        ensures
            r == (match self.current_match {
                Some(i) => if i < self.matches@.len() {
                    Some(&self.matches@[i as int])
                } else {
                    None
                },
                None => None,
            }),
    {
        match self.current_match {
            Some(idx) => if idx < self.matches.len() {
                Some(&self.matches[idx])
            } else {
                None
            },
            None => None,
        }
    }

    /// Reset the search state entirely.
    pub fn clear(&mut self)
        ensures
            final(self).query@ == Seq::<char>::empty(),
            final(self).matches@ == Seq::<SearchMatch>::empty(),
            final(self).current_match is None,
            final(self).direction == old(self).direction,
    {
        self.query = String::new();
        self.matches.clear();
        self.current_match = None;
    }

    /// All matches of the lowercased query in the lowercased lines of the grid.
    fn scan_grid(grid: &GridText, needle: &[u8]) -> (r: Vec<SearchMatch>)
        requires
            grid.wf(),
        ensures
            r@ == grid_scan(grid.line_texts(), grid.topmost_line as int, needle@),
            forall|i: int|
                0 <= i < grid.lines@.len() ==> ascii_lowering_known(#[trigger] grid.line_texts()[i])
                    && grid.line_texts()[i].len() <= usize::MAX,
    {
        let ghost lines = grid.line_texts();
        let ghost top = grid.topmost_line as int;
        let mut out: Vec<SearchMatch> = Vec::new();
        assert(lines.take(0) =~= Seq::<Seq<char>>::empty());
        for k in 0..grid.lines.len()
            invariant
                grid.wf(),
                lines == grid.line_texts(),
                top == grid.topmost_line as int,
                out@ == grid_scan(lines.take(k as int), top, needle@),
                forall|i: int| 0 <= i < k ==> ascii_lowering_known(#[trigger] lines[i]) && lines[i].len() <= usize::MAX,
        {
            let line_idx: i32 = (grid.topmost_line as i64 + k as i64) as i32;
            assert(lines.take(k + 1).drop_last() =~= lines.take(k as int));
            assert(lines.take(k + 1).last() == grid.lines@[k as int]@);
            let ghost cells = grid.lines@[k as int]@;
            let (lower, cols) = lower_line(grid.lines[k].as_str());
            let hay = lower.as_str().as_bytes();
            proof {
                lemma_byte_cols(cells);
            }
            let starts = scan_line(hay, needle);
            proof {
                lemma_scan_occurrences(hay@, needle@, 0);
            }
            let ghost ps = starts@.map_values(|p: usize| p as int);
            let ghost before = out@;
            let hay_len = hay.len();
            let cols_len = cols.len();
            let mut j: usize = 0;
            while j < starts.len()
                invariant
                    j <= starts@.len(),
                    hay_len == hay@.len(),
                    cols_len == cols@.len(),
                    ps == starts@.map_values(|p: usize| p as int),
                    ps == scan(hay@, needle@, 0),
                    hay@ == line_bytes(cells),
                    cols@.map_values(|c: usize| c as int) == byte_cols(cells),
                    byte_cols(cells).len() == lowered(cells).len(),
                    forall|t: int|
                        0 <= t < byte_cols(cells).len() ==> 0 <= #[trigger] byte_cols(cells)[t]
                            < cells.len(),
                    forall|t: int|
                        0 <= t < ps.len() ==> 0 <= #[trigger] ps[t] && ps[t] + needle@.len()
                            <= hay@.len(),
                    needle@.len() > 0 || ps.len() == 0,
                    cells.len() <= usize::MAX,
                    line_idx as int == top + k,
                    forall|i: int| 0 <= i < k ==> ascii_lowering_known(#[trigger] lines[i]) && lines[i].len() <= usize::MAX,
                    ascii_lowering_known(cells),
                    lines[k as int] == cells,
                    out@ == before + ps.take(j as int).map_values(
                        |p: int| match_at(line_idx as int, cells, p, needle@.len()),
                    ),
                decreases starts.len() - j,
            {
                let p = starts[j];
                assert(ps[j as int] == p as int);
                assert(ps.len() == starts@.len());
                assert(needle@.len() > 0);
                assert(p + needle@.len() <= hay@.len());
                let q = p + needle.len() - 1;
                assert(cols@.len() == byte_cols(cells).len());
                let start_col = if p < cols_len {
                    assert(cols@.map_values(|c: usize| c as int)[p as int] == cols@[p as int] as int);
                    cols[p]
                } else {
                    p
                };
                let end_col = if q < cols_len {
                    assert(cols@.map_values(|c: usize| c as int)[q as int] == cols@[q as int] as int);
                    cols[q] + 1
                } else {
                    q + 1
                };
                let m = SearchMatch { line: line_idx, start_col, end_col };
                assert(m == match_at(line_idx as int, cells, p as int, needle@.len()));
                out.push(m);
                assert(ps.take(j + 1) =~= ps.take(j as int).push(p as int));
                assert(out@ =~= before + ps.take(j + 1).map_values(
                    |p: int| match_at(line_idx as int, cells, p, needle@.len()),
                ));
                j += 1;
            }
            assert(ps.take(j as int) =~= ps);
        }
        assert(lines.take(grid.lines@.len() as int) =~= lines);
        out
    }
}

impl Default for SearchState {
    fn default() -> (s: Self)
        ensures
            s.query@ == Seq::<char>::empty(),
            s.matches@ == Seq::<SearchMatch>::empty(),
            s.current_match is None,
            s.direction == SearchDirection::Forward,
    {
        Self::new()
    }
}

/// The highlighted match after advancing among `len` matches.
pub open spec fn next_index(cur: Option<usize>, len: nat) -> Option<usize> {
    if len == 0 {
        cur
    } else {
        match cur {
            Some(i) => Some(((i + 1) % (len as int)) as usize),
            None => Some(0),
        }
    }
}

/// The highlighted match after moving back among `len` matches.
pub open spec fn prev_index(cur: Option<usize>, len: nat) -> Option<usize> {
    if len == 0 {
        cur
    } else {
        match cur {
            Some(i) => if i == 0 {
                Some((len - 1) as usize)
            } else {
                Some((i - 1) as usize)
            },
            None => Some((len - 1) as usize),
        }
    }
}

/// A copy of the matches.
fn copy_matches(v: &Vec<SearchMatch>) -> (r: Vec<SearchMatch>)
    ensures
        r@ == v@,
{
    let mut r: Vec<SearchMatch> = Vec::new();
    for i in 0..v.len()
        invariant
            r@ == v@.take(i as int),
    {
        r.push(v[i]);
        assert(v@.take(i + 1) =~= v@.take(i as int).push(v@[i as int]));
    }
    assert(v@.take(v@.len() as int) =~= v@);
    r
}

// ---------------------------------------------------------------------------
// Laws
// ---------------------------------------------------------------------------

/// Every start that a scan reports is an occurrence of the needle at or
/// after where the scan began, the starts come in order, each at least the
/// needle's length after the one before (occurrences do not overlap), and
/// each is the leftmost occurrence from where the one before it ends.
pub proof fn lemma_scan_occurrences(hay: Seq<u8>, needle: Seq<u8>, from: int)
    requires
        0 <= from,
    ensures
        forall|i: int|
            0 <= i < scan(hay, needle, from).len() ==> from <= #[trigger] scan(hay, needle, from)[i]
                && scan(hay, needle, from)[i] + needle.len() <= hay.len() && occurs_at(
                hay,
                needle,
                scan(hay, needle, from)[i],
            ),
        forall|i: int, j: int|
            0 <= i < j < scan(hay, needle, from).len() ==> #[trigger] scan(hay, needle, from)[i]
                + needle.len() <= #[trigger] scan(hay, needle, from)[j],
        scan(hay, needle, from).len() > 0 ==> first_occurrence(hay, needle, from) == Some(
            scan(hay, needle, from)[0],
        ),
        scan(hay, needle, from).len() > 0 ==> needle.len() > 0,
    decreases hay.len() + 1 - from,
{
    if needle.len() > 0 && from <= hay.len() {
        lemma_first_occurrence(hay, needle, from);
        if let Some(p) = first_occurrence(hay, needle, from) {
            let rest = scan(hay, needle, p + needle.len());
            lemma_scan_occurrences(hay, needle, p + needle.len());
            let ps = scan(hay, needle, from);
            assert(ps == seq![p] + rest);
            assert forall|i: int, j: int| 0 <= i < j < ps.len() implies #[trigger] ps[i]
                + needle.len() <= #[trigger] ps[j] by {
                assert(ps[j] == rest[j - 1]);
                if i > 0 {
                    assert(ps[i] == rest[i - 1]);
                }
            }
            assert forall|i: int| 0 <= i < ps.len() implies from <= #[trigger] ps[i] && ps[i]
                + needle.len() <= hay.len() && occurs_at(hay, needle, ps[i]) by {
                if i > 0 {
                    assert(ps[i] == rest[i - 1]);
                }
            }
        }
    }
}

/// Moving back undoes moving forward, and moving forward undoes moving back,
/// from any highlighted match.
pub proof fn lemma_prev_undoes_next(i: usize, len: nat)
    requires
        i < len,
        len <= usize::MAX,
    ensures
        prev_index(next_index(Some(i), len), len) == Some(i),
        next_index(prev_index(Some(i), len), len) == Some(i),
{
    if i + 1 == len {
        assert((i + 1) % (len as int) == 0) by (nonlinear_arith)
            requires
                i + 1 == len,
                len > 0,
        ;
    } else {
        assert((i + 1) % (len as int) == i + 1) by (nonlinear_arith)
            requires
                i + 1 < len,
        ;
    }
    if i == 0 {
        assert(((len - 1) + 1) % (len as int) == 0) by (nonlinear_arith)
            requires
                len > 0,
        ;
    } else {
        assert(((i - 1) + 1) % (len as int) == i) by (nonlinear_arith)
            requires
                0 < i < len,
        ;
    }
}

/// Advancing from the last match wraps around to the first, and moving back
/// from the first wraps around to the last.
pub proof fn lemma_matches_wrap(len: nat)
    requires
        0 < len <= usize::MAX,
    ensures
        next_index(Some((len - 1) as usize), len) == Some(0usize),
        prev_index(Some(0usize), len) == Some((len - 1) as usize),
{
    assert(((len - 1) + 1) % (len as int) == 0) by (nonlinear_arith)
        requires
            len > 0,
    ;
}

/// Every occurrence at or after where a scan begins starts within one of
/// the occurrences the scan reports: only occurrences that overlap a
/// reported one are passed over.
proof fn lemma_scan_covers(hay: Seq<u8>, needle: Seq<u8>, from: int, c: int)
    requires
        0 <= from <= c,
        needle.len() > 0,
        occurs_at(hay, needle, c),
    ensures
        exists|i: int|
            0 <= i < scan(hay, needle, from).len() && #[trigger] scan(hay, needle, from)[i] <= c < scan(
                hay,
                needle,
                from,
            )[i] + needle.len(),
    decreases hay.len() + 1 - from,
{
    lemma_first_occurrence(hay, needle, from);
    let ps = scan(hay, needle, from);
    let p = first_occurrence(hay, needle, from).unwrap();
    let rest = scan(hay, needle, p + needle.len());
    assert(ps == seq![p] + rest);
    if c < p + needle.len() {
        assert(ps[0] == p);
    } else {
        lemma_scan_covers(hay, needle, p + needle.len(), c);
        let i = choose|i: int| 0 <= i < rest.len() && #[trigger] rest[i] <= c < rest[i] + needle.len();
        assert(ps[i + 1] == rest[i]);
    }
}

/// The query occurs at column `c` of the line, ignoring ASCII case.
pub open spec fn ascii_occurs_at(cells: Seq<char>, q: Seq<char>, c: int) -> bool {
    &&& 0 <= c
    &&& c + q.len() <= cells.len()
    &&& forall|t: int| 0 <= t < q.len() ==> ascii_lower(#[trigger] cells[c + t]) == ascii_lower(q[t])
}

/// Byte occurrences of the ASCII bytes are the occurrences ignoring ASCII
/// case.
proof fn lemma_ascii_occurs(cells: Seq<char>, q: Seq<char>, c: int)
    requires
        ascii_text(cells),
        ascii_text(q),
    ensures
        occurs_at(ascii_bytes(cells), ascii_bytes(q), c) == ascii_occurs_at(cells, q, c),
{
    let hay = ascii_bytes(cells);
    let nd = ascii_bytes(q);
    if 0 <= c && c + q.len() <= cells.len() {
        if occurs_at(hay, nd, c) {
            assert forall|t: int| 0 <= t < q.len() implies ascii_lower(#[trigger] cells[c + t])
                == ascii_lower(q[t]) by {
                assert(hay.subrange(c, c + nd.len())[t] == nd[t]);
                assert((cells[c + t] as u32) < 128 && (q[t] as u32) < 128);
            }
        }
        if ascii_occurs_at(cells, q, c) {
            assert forall|t: int| 0 <= t < nd.len() implies #[trigger] hay.subrange(c, c + nd.len())[t]
                == nd[t] by {
                assert(ascii_lower(cells[c + t]) == ascii_lower(q[t]));
            }
            assert(hay.subrange(c, c + nd.len()) =~= nd);
        }
    }
}

/// The law of an ASCII search: each match lies on a line of the grid and
/// spans as many columns as the query has characters, equal to the query
/// ignoring ASCII case; the matches come line by line, left to right,
/// without overlapping; and every occurrence of the query (ignoring ASCII
/// case) starts within one of them, so that on each line they are the
/// leftmost non-overlapping occurrences.
pub proof fn lemma_ascii_search_law(lines: Seq<Seq<char>>, top: int, q: Seq<char>)
    requires
        i32::MIN <= top,
        top + lines.len() <= i32::MAX + 1,
        forall|i: int|
            0 <= i < lines.len() ==> ascii_text(#[trigger] lines[i]) && lines[i].len() <= usize::MAX,
        ascii_text(q),
        q.len() > 0,
    ensures
        forall|k: int|
            0 <= k < ascii_scan(lines, top, ascii_bytes(q)).len() ==> {
                let m = #[trigger] ascii_scan(lines, top, ascii_bytes(q))[k];
                &&& top <= m.line < top + lines.len()
                &&& m.end_col == m.start_col + q.len()
                &&& ascii_occurs_at(lines[m.line - top], q, m.start_col as int)
            },
        forall|k1: int, k2: int|
            0 <= k1 < k2 < ascii_scan(lines, top, ascii_bytes(q)).len() ==> #[trigger] ascii_scan(
                lines,
                top,
                ascii_bytes(q),
            )[k1].line < #[trigger] ascii_scan(lines, top, ascii_bytes(q))[k2].line || (ascii_scan(
                lines,
                top,
                ascii_bytes(q),
            )[k1].line == ascii_scan(lines, top, ascii_bytes(q))[k2].line && ascii_scan(
                lines,
                top,
                ascii_bytes(q),
            )[k1].end_col <= ascii_scan(lines, top, ascii_bytes(q))[k2].start_col),
        forall|i: int, c: int|
            0 <= i < lines.len() && #[trigger] ascii_occurs_at(lines[i], q, c) ==> exists|k: int|
                0 <= k < ascii_scan(lines, top, ascii_bytes(q)).len() && #[trigger] ascii_scan(
                    lines,
                    top,
                    ascii_bytes(q),
                )[k].line == top + i && ascii_scan(lines, top, ascii_bytes(q))[k].start_col <= c
                    < ascii_scan(lines, top, ascii_bytes(q))[k].end_col,
    decreases lines.len(),
{
    let nd = ascii_bytes(q);
    let n = q.len();
    if lines.len() > 0 {
        let front = lines.drop_last();
        let li = lines.len() - 1;
        let cells = lines.last();
        assert(cells == lines[li]);
        assert forall|i: int| 0 <= i < front.len() implies ascii_text(#[trigger] front[i])
            && front[i].len() <= usize::MAX by {
            assert(front[i] == lines[i]);
        }
        lemma_ascii_search_law(front, top, q);
        let hay = ascii_bytes(cells);
        lemma_scan_occurrences(hay, nd, 0);
        let ps = scan(hay, nd, 0);
        let a = ascii_scan(front, top, nd);
        let b = ascii_line_matches(top + li, cells, nd);
        let all = ascii_scan(lines, top, nd);
        assert(all == a + b);
        assert forall|k: int| 0 <= k < b.len() implies {
            let m = #[trigger] b[k];
            &&& m.line == top + li
            &&& m.start_col == ps[k]
            &&& m.end_col == ps[k] + n
        } by {
            assert(ps[k] + n <= hay.len());
        }
        assert forall|k: int| 0 <= k < all.len() implies {
            let m = #[trigger] all[k];
            &&& top <= m.line < top + lines.len()
            &&& m.end_col == m.start_col + q.len()
            &&& ascii_occurs_at(lines[m.line - top], q, m.start_col as int)
        } by {
            if k < a.len() {
                assert(all[k] == a[k]);
                assert(lines[a[k].line - top] == front[a[k].line - top]);
            } else {
                assert(all[k] == b[k - a.len()]);
                lemma_ascii_occurs(cells, q, ps[k - a.len()]);
            }
        }
        assert forall|k1: int, k2: int| 0 <= k1 < k2 < all.len() implies #[trigger] all[k1].line
            < #[trigger] all[k2].line || (all[k1].line == all[k2].line && all[k1].end_col
            <= all[k2].start_col) by {
            if k2 < a.len() {
                assert(all[k1] == a[k1] && all[k2] == a[k2]);
            } else if k1 < a.len() {
                assert(all[k1] == a[k1] && all[k2] == b[k2 - a.len()]);
            } else {
                assert(all[k1] == b[k1 - a.len()] && all[k2] == b[k2 - a.len()]);
                assert(ps[k1 - a.len()] + n <= ps[k2 - a.len()]);
            }
        }
        assert forall|i: int, c: int|
            0 <= i < lines.len() && #[trigger] ascii_occurs_at(lines[i], q, c) implies exists|k: int|
            0 <= k < all.len() && #[trigger] all[k].line == top + i && all[k].start_col <= c
                < all[k].end_col by {
            if i < front.len() {
                assert(front[i] == lines[i]);
                assert(ascii_occurs_at(front[i], q, c));
                let k = choose|k: int|
                    0 <= k < a.len() && #[trigger] a[k].line == top + i && a[k].start_col <= c
                        < a[k].end_col;
                assert(all[k] == a[k]);
            } else {
                lemma_ascii_occurs(cells, q, c);
                lemma_scan_covers(hay, nd, 0, c);
                let j = choose|j: int| 0 <= j < ps.len() && #[trigger] ps[j] <= c < ps[j] + n;
                assert(all[a.len() + j] == b[j]);
            }
        }
    }
}

} // verus!
