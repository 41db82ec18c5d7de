//! Row geometry: how a validated request partitions its span of 32-bit
//! words into fixed-width rows, with a possibly short final row.

use vstd::prelude::*;
use vstd::arithmetic::div_mod::{
    lemma_fundamental_div_mod, lemma_fundamental_div_mod_converse, lemma_mod_bound,
};
use vstd::arithmetic::mul::{
    lemma_mul_inequality, lemma_mul_nonnegative, lemma_mul_strict_inequality_converse,
};

use crate::request::Requirements;

verus! {

impl Requirements {
    /// Number of 32-bit words in the requested span.
    pub open spec fn total_words(self) -> int {
        self.size as int / 4
    }

    /// Number of output rows: total words divided by words-per-row,
    /// rounded up (integer ceiling division).
    pub open spec fn spec_row_count(self) -> int {
        (self.total_words() + self.per_row - 1) / (self.per_row as int)
    }

    /// Byte address at which row `i` starts.
    pub open spec fn spec_row_start(self, i: int) -> int {
        self.addr + i * 4 * self.per_row
    }

    /// Number of words in row `i`: the full row width, except that the
    /// final row holds only the words that remain.
    pub open spec fn spec_row_words(self, i: int) -> int {
        let rem = self.total_words() - i * (self.per_row as int);
        if rem >= self.per_row { self.per_row as int } else { rem }
    }

    /// Row `i` covers word index `w` of the span.
    pub open spec fn covers(self, i: int, w: int) -> bool {
        &&& 0 <= i < self.spec_row_count()
        &&& i * (self.per_row as int) <= w < i * (self.per_row as int) + self.spec_row_words(i)
    }

    /// Some row covers word index `w` of the span.
    pub open spec fn covered(self, w: int) -> bool {
        exists|i: int| self.covers(i, w)
    }

    /// Basic facts about the ceiling division behind `spec_row_count`.
    proof fn lemma_row_count_bounds(self)
        requires
            self.wf(),
        ensures
            self.spec_row_count() >= 0,
            self.spec_row_count() * self.per_row >= self.total_words(),
            (self.spec_row_count() - 1) * self.per_row < self.total_words(),
            self.total_words() == 0 ==> self.spec_row_count() == 0,
            self.total_words() > 0 ==> self.spec_row_count() >= 1,
    {
        let pr = self.per_row as int;
        let tw = self.total_words();
        let c = self.spec_row_count();
        let s = (tw + pr - 1) % pr;
        lemma_fundamental_div_mod(tw + pr - 1, pr);
        lemma_mod_bound(tw + pr - 1, pr);
        assert(tw + pr - 1 == pr * c + s);
        assert(c * pr == pr * c) by (nonlinear_arith);
        // c cannot be negative, since pr * c == tw - 1 - s + pr > -pr.
        assert((-1) * pr < c * pr);
        lemma_mul_strict_inequality_converse(-1, c, pr);
        assert(c * pr == tw + pr - 1 - s);
        assert(c * pr >= tw);
        assert((c - 1) * pr == c * pr - pr) by (nonlinear_arith);
        if tw == 0 {
            if c >= 1 {
                lemma_mul_nonnegative(c - 1, pr);
                assert(false);
            }
        }
        if tw > 0 && c < 1 {
            lemma_mul_inequality(c, 0, pr);
            assert(c * pr <= 0);
            assert(false);
        }
    }

    /// Each row index in range starts strictly inside the span of words,
    /// and holds between 1 and `per_row` words.
    pub(crate) proof fn lemma_row_in_span(self, i: int)
        requires
            self.wf(),
            0 <= i < self.spec_row_count(),
        ensures
            0 <= i * (self.per_row as int) < self.total_words(),
            1 <= self.spec_row_words(i) <= self.per_row,
            i * (self.per_row as int) + self.spec_row_words(i) <= self.total_words(),
            self.spec_row_start(i) == self.addr + 4 * (i * (self.per_row as int)),
    {
        let pr = self.per_row as int;
        let tw = self.total_words();
        self.lemma_row_count_bounds();
        lemma_mul_nonnegative(i, pr);
        lemma_mul_inequality(i, self.spec_row_count() - 1, pr);
        assert(i * pr <= (self.spec_row_count() - 1) * pr);
        assert(i * pr < tw);
        assert(self.spec_row_start(i) == self.addr + i * 4 * pr);
        assert(i * 4 * pr == 4 * (i * pr)) by (nonlinear_arith);
    }

    /// The row count, computed without risk of overflow.
    ///
    /// The result equals `ceil((span_length / 4) / words_per_row)`, the
    /// total number of 32-bit words divided by the row width, rounded up.
    pub fn row_count(&self) -> (n: usize)
        requires
            self.wf(),
        ensures
            n == self.spec_row_count(),
    {
        let tw = self.size / 4;
        let q = tw / self.per_row;
        let r = tw % self.per_row;
        proof {
            let pr = self.per_row as int;
            lemma_fundamental_div_mod(tw as int, pr);
            assert(tw == pr * (q as int) + (r as int));
            assert(pr * (q as int) == (q as int) * pr) by (nonlinear_arith);
            if r == 0 {
                lemma_fundamental_div_mod_converse(tw as int + pr - 1, pr, q as int, pr - 1);
            } else {
                assert((q as int + 1) * pr == (q as int) * pr + pr) by (nonlinear_arith);
                lemma_fundamental_div_mod_converse(tw as int + pr - 1, pr, q as int + 1, r as int - 1);
                // q + 1 stays within usize: q <= q * pr <= tw - 1.
                lemma_mul_inequality(1, pr, q as int);
                assert(q as int * 1 == q as int);
                assert(q as int <= q as int * pr);
                assert(pr * (q as int) <= tw - 1);
            }
        }
        if r == 0 {
            q
        } else {
            q + 1
        }
    }

    /// The byte address at which row `i` starts.
    pub fn row_start(&self, i: usize) -> (a: usize)
        requires
            self.wf(),
            i < self.spec_row_count(),
            self.addr + self.size <= usize::MAX,
        ensures
            a == self.spec_row_start(i as int),
            a + 4 <= self.addr + self.size,
    {
        proof {
            self.lemma_row_in_span(i as int);
            lemma_fundamental_div_mod(self.size as int, 4);
            assert(4 * self.total_words() == self.size);
        }
        let words_before = i * self.per_row;
        self.addr + 4 * words_before
    }

    /// The number of words in row `i`: the full width for every row that
    /// still has a full width's worth of span left, and the remaining
    /// words for the final short row.
    pub fn row_word_count(&self, i: usize) -> (n: usize)
        requires
            self.wf(),
            i < self.spec_row_count(),
            self.addr + self.size <= usize::MAX,
        ensures
            n == self.spec_row_words(i as int),
            1 <= n <= self.per_row,
    {
        let a = self.row_start(i);
        let remaining = (self.addr + self.size) - a;
        proof {
            self.lemma_row_in_span(i as int);
            lemma_fundamental_div_mod(self.size as int, 4);
            assert(4 * self.total_words() == self.size);
            let k = self.total_words() - (i as int) * (self.per_row as int);
            assert(remaining == 4 * k);
            lemma_fundamental_div_mod_converse(4 * k, 4, k, 0);
        }
        let words_left = remaining / 4;
        if words_left >= self.per_row {
            self.per_row
        } else {
            words_left
        }
    }

    /// Law: the rows exactly cover the span's words. Every word index in
    /// `[0, span_length/4)` lies in exactly one row's range, and no row
    /// reaches a word outside the span.
    pub proof fn lemma_row_coverage(self)
        requires
            self.wf(),
        ensures
            forall|w: int| 0 <= w < self.total_words() ==> #[trigger] self.covered(w),
            forall|i: int, w: int| #[trigger] self.covers(i, w) ==> 0 <= w < self.total_words(),
            forall|i1: int, i2: int, w: int|
                #[trigger] self.covers(i1, w) && #[trigger] self.covers(i2, w) ==> i1 == i2,
    {
        let pr = self.per_row as int;
        let tw = self.total_words();
        self.lemma_row_count_bounds();
        assert forall|w: int| 0 <= w < tw implies #[trigger] self.covered(w) by {
            let i = w / pr;
            let m = w % pr;
            lemma_fundamental_div_mod(w, pr);
            lemma_mod_bound(w, pr);
            assert(w == pr * i + m);
            assert(pr * i == i * pr) by (nonlinear_arith);
            assert((-1) * pr < i * pr);
            lemma_mul_strict_inequality_converse(-1, i, pr);
            assert(i * pr < self.spec_row_count() * pr);
            lemma_mul_strict_inequality_converse(i, self.spec_row_count(), pr);
            assert(self.covers(i, w));
        }
        assert forall|i: int, w: int| #[trigger] self.covers(i, w) implies 0 <= w
            < tw by {
            self.lemma_row_in_span(i);
        }
        assert forall|i1: int, i2: int, w: int|
            #[trigger] self.covers(i1, w) && #[trigger] self.covers(i2, w) implies i1 == i2 by {
            self.lemma_row_in_span(i1);
            self.lemma_row_in_span(i2);
            if i1 < i2 {
                lemma_mul_inequality(i1 + 1, i2, pr);
                assert((i1 + 1) * pr == i1 * pr + pr) by (nonlinear_arith);
                assert(false);
            }
            if i2 < i1 {
                lemma_mul_inequality(i2 + 1, i1, pr);
                assert((i2 + 1) * pr == i2 * pr + pr) by (nonlinear_arith);
                assert(false);
            }
        }
    }

    /// Law: every row but the last is full, and the last row's width is
    /// the remainder. If the word total does not divide evenly by the row
    /// width, the final row holds exactly `total mod per_row` words;
    /// otherwise every row, the last included, holds `per_row` words.
    pub proof fn lemma_last_row_sizing(self)
        requires
            self.wf(),
        ensures
            forall|i: int|
                0 <= i < self.spec_row_count() - 1 ==> #[trigger] self.spec_row_words(i)
                    == self.per_row,
            self.total_words() % (self.per_row as int) != 0 ==> self.spec_row_words(
                self.spec_row_count() - 1,
            ) == self.total_words() % (self.per_row as int),
            self.total_words() % (self.per_row as int) == 0 ==> forall|i: int|
                0 <= i < self.spec_row_count() ==> #[trigger] self.spec_row_words(i)
                    == self.per_row,
    {
        let pr = self.per_row as int;
        let tw = self.total_words();
        let rc = self.spec_row_count();
        let q = tw / pr;
        let r = tw % pr;
        self.lemma_row_count_bounds();
        lemma_fundamental_div_mod(tw, pr);
        lemma_mod_bound(tw, pr);
        assert(tw == pr * q + r);
        assert(pr * q == q * pr) by (nonlinear_arith);
        assert forall|i: int| 0 <= i < rc - 1 implies #[trigger] self.spec_row_words(i)
            == pr by {
            lemma_mul_inequality(i, rc - 2, pr);
            assert(i * pr <= (rc - 2) * pr);
            assert((rc - 2) * pr == (rc - 1) * pr - pr) by (nonlinear_arith);
            assert(tw - i * pr >= pr);
        }
        if r != 0 {
            assert((q + 1) * pr == q * pr + pr) by (nonlinear_arith);
            lemma_fundamental_div_mod_converse(tw + pr - 1, pr, q + 1, r - 1);
            assert(rc == q + 1);
            assert(tw - q * pr == r);
            assert(self.spec_row_words(rc - 1) == r);
        } else {
            lemma_fundamental_div_mod_converse(tw + pr - 1, pr, q, pr - 1);
            assert(rc == q);
            assert forall|i: int| 0 <= i < rc implies #[trigger] self.spec_row_words(i)
                == pr by {
                lemma_mul_inequality(i, rc - 1, pr);
                assert(i * pr <= (rc - 1) * pr);
                assert((rc - 1) * pr == rc * pr - pr) by (nonlinear_arith);
                assert(rc * pr == q * pr);
                assert(tw - i * pr >= pr);
            }
        }
    }
}

} // verus!
