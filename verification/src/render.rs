//! The row formatter: turns a validated request and a byte view into
//! printable lines, one per row, with each non-sentinel word flagged
//! for emphasis.

use vstd::prelude::*;
use vstd::string::StringExecFns;

use crate::hex::{format_hex, hex_literal};
use crate::request::Requirements;

verus! {

/// The two benign filler patterns: the all-ones word and the fixed
/// marker word. Any other value is a value of interest.
pub open spec fn spec_sentinels() -> Set<u32> {
    set![0xFFFF_FFFFu32, 0xDEAD_BEEFu32]
}

/// Law: a word is benign exactly when it is one of the two sentinel
/// patterns; every other value is attention-worthy.
pub fn is_benign_sentinel(word: u32) -> (benign: bool)
    ensures
        benign == spec_sentinels().contains(word),
        benign == (word == 0xFFFF_FFFFu32 || word == 0xDEAD_BEEFu32),
{
    word == 0xFFFF_FFFFu32 || word == 0xDEAD_BEEFu32
}

/// The little-endian reading of four bytes as a 32-bit value.
pub open spec fn le_word(b: Seq<u8>) -> int {
    b[0] + b[1] * 0x100 + b[2] * 0x1_0000 + b[3] * 0x100_0000
}

/// The big-endian reading of four bytes as a 32-bit value.
pub open spec fn be_word(b: Seq<u8>) -> int {
    b[3] + b[2] * 0x100 + b[1] * 0x1_0000 + b[0] * 0x100_0000
}

/// `w` is the native-endian reading of the four bytes `b`: one of the
/// two byte orders' values, whichever the host uses.
pub open spec fn is_native_word(b: Seq<u8>, w: u32) -> bool {
    &&& b.len() == 4
    &&& (w == le_word(b) || w == be_word(b))
}

/// `words` is the native-endian reading of `bytes`, taken four bytes
/// at a time.
pub open spec fn native_words(bytes: Seq<u8>, words: Seq<u32>) -> bool {
    &&& words.len() == bytes.len() / 4
    &&& forall|k: int|
        0 <= k < words.len() ==> is_native_word(
            bytes.subrange(4 * k, 4 * k + 4),
            #[trigger] words[k],
        )
}

/// Relies on `u32::from_ne_bytes`: the host's native byte order is
/// either little- or big-endian, so the result is one of the two byte
/// orders' readings of the four bytes.
#[verifier::external_body]
fn word_from_ne_bytes(b0: u8, b1: u8, b2: u8, b3: u8) -> (w: u32)
    ensures
        is_native_word(seq![b0, b1, b2, b3], w),
{
    u32::from_ne_bytes([b0, b1, b2, b3])
}

/// Reads the byte view as a sequence of native-endian 32-bit words.
pub fn view_words(view: &Vec<u8>) -> (words: Vec<u32>)
    requires
        view@.len() % 4 == 0,
    ensures
        native_words(view@, words@),
{
    let total = view.len() / 4;
    let mut words: Vec<u32> = Vec::new();
    let mut k: usize = 0;
    while k < total
        invariant
            0 <= k <= total,
            total == view@.len() / 4,
            view@.len() % 4 == 0,
            view@.len() <= usize::MAX,
            words@.len() == k,
            forall|m: int|
                0 <= m < k ==> is_native_word(
                    view@.subrange(4 * m, 4 * m + 4),
                    #[trigger] words@[m],
                ),
        decreases total - k,
    {
        proof {
            vstd::arithmetic::div_mod::lemma_fundamental_div_mod(view@.len() as int, 4);
        }
        let w = word_from_ne_bytes(view[4 * k], view[4 * k + 1], view[4 * k + 2], view[4 * k + 3]);
        proof {
            assert(view@.subrange(4 * (k as int), 4 * (k as int) + 4) =~= seq![
                view@[4 * (k as int)],
                view@[4 * (k as int) + 1],
                view@[4 * (k as int) + 2],
                view@[4 * (k as int) + 3],
            ]);
        }
        words.push(w);
        k = k + 1;
    }
    words
}

/// One rendered word: its literal text (a space, then the fixed-width
/// hexadecimal literal) and whether it is to be emphasised.
pub struct WordCell {
    pub text: String,
    pub highlight: bool,
}

/// One printable output line: the row header (the row's start address
/// as a hexadecimal literal, then a colon) and the row's words.
pub struct RowLine {
    pub header: String,
    pub words: Vec<WordCell>,
}

/// `cell` is the rendering of the word value `w`: the exact literal
/// text, emphasised exactly when `w` is not a benign sentinel.
pub open spec fn cell_matches(cell: WordCell, w: u32) -> bool {
    &&& cell.text@ == seq![' '] + hex_literal(w as nat)
    &&& cell.highlight == !spec_sentinels().contains(w)
}

/// `row` is the rendering of row `i` of the request: the header for
/// the row's start address, and one cell per word of the row, in
/// increasing address order.
pub open spec fn row_matches(reqs: Requirements, row: RowLine, i: int, words: Seq<u32>) -> bool {
    &&& row.header@ == hex_literal(reqs.spec_row_start(i) as nat) + seq![':']
    &&& row.words@.len() == reqs.spec_row_words(i)
    &&& forall|j: int|
        0 <= j < row.words@.len() ==> cell_matches(
            #[trigger] row.words@[j],
            words[i * (reqs.per_row as int) + j],
        )
}

/// `rows` is the complete rendering of the request over the span's
/// words: one line per row, in increasing address order.
pub open spec fn rows_match(reqs: Requirements, words: Seq<u32>, rows: Seq<RowLine>) -> bool {
    &&& rows.len() == reqs.spec_row_count()
    &&& forall|i: int| 0 <= i < rows.len() ==> row_matches(reqs, #[trigger] rows[i], i, words)
}

/// Renders one word value as its cell.
fn render_word(w: u32) -> (cell: WordCell)
    ensures
        cell_matches(cell, w),
{
    let mut text = String::new();
    text.append(" ");
    proof {
        reveal_strlit(" ");
        assert(text@ =~= seq![' ']);
    }
    let hex = format_hex(w as usize);
    text.append(hex.as_str());
    WordCell { text, highlight: !is_benign_sentinel(w) }
}

/// Renders every row of a validated request, given the span's words.
///
/// The result has exactly one line per row; line `i` carries the header
/// for the row's start address and the renderings of the words at
/// indices `i * per_row` onwards, the full row width for every row but
/// possibly the last.
pub fn format_rows(reqs: &Requirements, words: &Vec<u32>) -> (rows: Vec<RowLine>)
    requires
        reqs.wf(),
        words@.len() == reqs.total_words(),
        reqs.addr + reqs.size <= usize::MAX,
    ensures
        rows_match(*reqs, words@, rows@),
{
    let row_count = reqs.row_count();
    let mut rows: Vec<RowLine> = Vec::new();
    let mut i: usize = 0;
    while i < row_count
        invariant
            0 <= i <= row_count,
            reqs.wf(),
            words@.len() == reqs.total_words(),
            reqs.addr + reqs.size <= usize::MAX,
            row_count == reqs.spec_row_count(),
            rows@.len() == i,
            forall|m: int| 0 <= m < i ==> row_matches(*reqs, #[trigger] rows@[m], m, words@),
        decreases row_count - i,
    {
        let start = reqs.row_start(i);
        let mut header = format_hex(start);
        header.append(":");
        proof {
            reveal_strlit(":");
            assert(header@ =~= hex_literal(reqs.spec_row_start(i as int) as nat) + seq![':']);
        }
        let n = reqs.row_word_count(i);
        proof {
            reqs.lemma_row_in_span(i as int);
        }
        let base = i * reqs.per_row;
        let mut cells: Vec<WordCell> = Vec::new();
        let mut j: usize = 0;
        while j < n
            invariant
                0 <= j <= n,
                reqs.wf(),
                words@.len() == reqs.total_words(),
                i < reqs.spec_row_count(),
                n == reqs.spec_row_words(i as int),
                base == i * (reqs.per_row as int),
                base + n <= words@.len(),
                cells@.len() == j,
                forall|m: int|
                    0 <= m < j ==> cell_matches(#[trigger] cells@[m], words@[base + m]),
            decreases n - j,
        {
            let w = words[base + j];
            let cell = render_word(w);
            cells.push(cell);
            j = j + 1;
        }
        rows.push(RowLine { header, words: cells });
        i = i + 1;
    }
    rows
}

/// Renders a whole dump in one step: reads the byte view as
/// native-endian words, then formats every row.
pub fn dump_rows(reqs: &Requirements, view: &Vec<u8>) -> (rows: Vec<RowLine>)
    requires
        reqs.wf(),
        view@.len() == reqs.size,
        reqs.addr + reqs.size <= usize::MAX,
    ensures
        exists|words: Seq<u32>| native_words(view@, words) && rows_match(*reqs, words, rows@),
{
    let words = view_words(view);
    let rows = format_rows(reqs, &words);
    proof {
        assert(native_words(view@, words@) && rows_match(*reqs, words@, rows@));
    }
    rows
}

} // verus!
