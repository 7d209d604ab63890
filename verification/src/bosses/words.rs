//! Breaking a boss name into pieces of about the same length.
use crate::text::{
    byte_len, concat_range, flat, lemma_flat_concat, split_words, text_len, texts, trim_end_spaces,
    trimmed_end, words_of,
};
use vstd::prelude::*;
use vstd::utf8::{decode_utf8, encode_utf8, is_char_boundary};

verus! {

/// The byte lengths of some words.
pub open spec fn word_lens(words: Seq<Seq<char>>) -> Seq<nat> {
    words.map_values(|w: Seq<char>| byte_len(w))
}

/// The total of `lens` from `start` up to, not including, `end`.
pub open spec fn run_len(lens: Seq<nat>, start: int, end: int) -> int
    decreases end - start,
{
    if start >= end {
        0
    } else {
        run_len(lens, start, end - 1) + lens[end - 1]
    }
}

/// The length each line should have: an even share of the total.
pub open spec fn target_len(lens: Seq<nat>, lines: int) -> int {
    run_len(lens, 0, lens.len() as int) / lines
}

/// How far a line of the words from `start` to `end` is off the target, squared. Every word but
/// the last of the text ends in a space, and the space that ends a line is not counted.
pub open spec fn line_cost(lens: Seq<nat>, target: int, start: int, end: int) -> int {
    let len = run_len(lens, start, end) - (if end < lens.len() {
        1int
    } else {
        0int
    });
    (len - target) * (len - target)
}

/// Whether `cuts` puts the first `words` words on `lines` lines with at least one word each:
/// line `j` holds the words from `cuts[j]` up to, not including, `cuts[j + 1]`.
pub open spec fn is_layout(cuts: Seq<int>, words: int, lines: int) -> bool {
    &&& cuts.len() == lines + 1
    &&& cuts[0] == 0
    &&& cuts[lines] == words
    &&& forall|i: int, j: int| 0 <= i < j <= lines ==> cuts[i] < cuts[j]
}

/// The total cost of the first `lines` lines.
pub open spec fn layout_cost(lens: Seq<nat>, target: int, cuts: Seq<int>, lines: int) -> int
    decreases lines,
{
    if lines <= 0 {
        0
    } else {
        layout_cost(lens, target, cuts, lines - 1) + line_cost(
            lens,
            target,
            cuts[lines - 1],
            cuts[lines],
        )
    }
}

/// Whether `a` is `b`, or cuts earlier at the last place where they differ.
pub open spec fn cuts_no_later(a: Seq<int>, b: Seq<int>) -> bool {
    a == b || exists|m: int|
        0 <= m < a.len() && #[trigger] a[m] < b[m] && (forall|i: int|
            m < i < a.len() ==> a[i] == b[i])
}

/// Whether `cuts` is the cheapest layout of all words on `lines` lines; of several, the one that
/// cuts earliest, seen from the last line.
pub open spec fn is_best_layout(lens: Seq<nat>, lines: int, cuts: Seq<int>) -> bool {
    let target = target_len(lens, lines);
    &&& is_layout(cuts, lens.len() as int, lines)
    &&& forall|other: Seq<int>| #[trigger]
        is_layout(other, lens.len() as int, lines) ==> {
            &&& layout_cost(lens, target, cuts, lines) <= layout_cost(lens, target, other, lines)
            &&& layout_cost(lens, target, cuts, lines) == layout_cost(lens, target, other, lines)
                ==> cuts_no_later(cuts, other)
        }
}

/// The text of each line of a layout.
pub open spec fn lines_of(words: Seq<Seq<char>>, cuts: Seq<int>) -> Seq<Seq<char>> {
    Seq::new((cuts.len() - 1) as nat, |j: int| flat(words.subrange(cuts[j], cuts[j + 1])))
}

/// There is only one best layout.
pub proof fn lemma_best_layout_unique(lens: Seq<nat>, lines: int, a: Seq<int>, b: Seq<int>)
    requires
        is_best_layout(lens, lines, a),
        is_best_layout(lens, lines, b),
    ensures
        a == b,
{
    assert(is_layout(a, lens.len() as int, lines));
    assert(is_layout(b, lens.len() as int, lines));
    if a != b {
        let m = choose|m: int|
            0 <= m < a.len() && #[trigger] a[m] < b[m] && (forall|i: int|
                m < i < a.len() ==> a[i] == b[i]);
        let k = choose|k: int|
            0 <= k < b.len() && #[trigger] b[k] < a[k] && (forall|i: int|
                k < i < b.len() ==> b[i] == a[i]);
        assert(m < k || k < m || m == k);
        assert(a[m] < b[m] && b[k] < a[k]);
    }
}

/// The lines of a layout, put together again, are the words.
pub proof fn lemma_lines_of_flat(words: Seq<Seq<char>>, cuts: Seq<int>, lines: int)
    requires
        lines >= 0,
        is_layout(cuts, words.len() as int, lines),
    ensures
        flat(lines_of(words, cuts)) == flat(words),
{
    lemma_lines_prefix(words, cuts, lines, lines);
    assert(lines_of(words, cuts).take(lines) =~= lines_of(words, cuts));
    assert(words.take(words.len() as int) =~= words);
}

proof fn lemma_cuts_range(cuts: Seq<int>, words: int, lines: int, j: int)
    requires
        is_layout(cuts, words, lines),
        0 <= j <= lines,
    ensures
        j <= cuts[j] <= words - (lines - j),
    decreases lines - j, j,
{
    lemma_cuts_low(cuts, words, lines, j);
    lemma_cuts_high(cuts, words, lines, j);
}

proof fn lemma_cuts_low(cuts: Seq<int>, words: int, lines: int, j: int)
    requires
        is_layout(cuts, words, lines),
        0 <= j <= lines,
    ensures
        j <= cuts[j],
    decreases j,
{
    if j > 0 {
        lemma_cuts_low(cuts, words, lines, j - 1);
    }
}

proof fn lemma_cuts_high(cuts: Seq<int>, words: int, lines: int, j: int)
    requires
        is_layout(cuts, words, lines),
        0 <= j <= lines,
    ensures
        cuts[j] <= words - (lines - j),
    decreases lines - j,
{
    if j < lines {
        lemma_cuts_high(cuts, words, lines, j + 1);
    }
}

proof fn lemma_lines_prefix(words: Seq<Seq<char>>, cuts: Seq<int>, lines: int, j: int)
    requires
        is_layout(cuts, words.len() as int, lines),
        0 <= j <= lines,
    ensures
        flat(lines_of(words, cuts).take(j)) == flat(words.take(cuts[j])),
    decreases j,
{
    lemma_cuts_range(cuts, words.len() as int, lines, j);
    if j > 0 {
        lemma_lines_prefix(words, cuts, lines, j - 1);
        lemma_cuts_range(cuts, words.len() as int, lines, j - 1);
        let before = words.take(cuts[j - 1]);
        let line = words.subrange(cuts[j - 1], cuts[j]);
        lemma_flat_concat(before, line);
        assert(before + line =~= words.take(cuts[j]));
        assert(lines_of(words, cuts).take(j).drop_last() =~= lines_of(words, cuts).take(j - 1));
    } else {
        assert(words.take(0) =~= Seq::empty());
    }
}

// --- The dynamic program

/// The upper end of the places where the last of `j` lines that end at word `i` may start.
spec fn start_bound(i: int, j: int) -> int {
    if j == 1 {
        1
    } else {
        i
    }
}

/// The least cost of the first `i` words on `j` lines whose last line starts before word `m`.
spec fn best_before(lens: Seq<nat>, target: int, i: int, j: int, m: int) -> int
    decreases j, m,
{
    if j <= 0 || m < j {
        0
    } else {
        let last = candidate(lens, target, i, j, m - 1);
        if m == j {
            last
        } else {
            let rest = best_before(lens, target, i, j, m - 1);
            if last < rest {
                last
            } else {
                rest
            }
        }
    }
}

/// The least cost of the first `i` words on `j` lines whose last line starts at word `k`.
spec fn candidate(lens: Seq<nat>, target: int, i: int, j: int, k: int) -> int
    decreases j, k,
{
    (if j <= 1 {
        0
    } else {
        best_before(lens, target, k, j - 1, start_bound(k, j - 1))
    }) + line_cost(lens, target, k, i)
}

/// The least cost of the first `i` words on `j` lines.
spec fn best(lens: Seq<nat>, target: int, i: int, j: int) -> int {
    best_before(lens, target, i, j, start_bound(i, j))
}

/// Whether the last of the `j` lines of the cheapest layouts of `i` words starts at word `k` at
/// the earliest.
spec fn is_first_best(lens: Seq<nat>, target: int, i: int, j: int, k: int) -> bool {
    &&& j - 1 <= k < start_bound(i, j)
    &&& candidate(lens, target, i, j, k) == best(lens, target, i, j)
    &&& forall|e: int|
        j - 1 <= e < k ==> #[trigger] candidate(lens, target, i, j, e) > best(lens, target, i, j)
}

/// Whether line `l` of `cuts` starts at the first best place for the words up to its end.
spec fn starts_first(lens: Seq<nat>, target: int, cuts: Seq<int>, l: int) -> bool {
    is_first_best(lens, target, cuts[l], l, cuts[l - 1])
}

proof fn lemma_best_before(lens: Seq<nat>, target: int, i: int, j: int, m: int, k: int)
    requires
        j >= 1,
        j - 1 <= k < m,
    ensures
        best_before(lens, target, i, j, m) <= candidate(lens, target, i, j, k),
    decreases m,
{
    if k < m - 1 {
        lemma_best_before(lens, target, i, j, m - 1, k);
    }
}

proof fn lemma_layout_cost_prefix(lens: Seq<nat>, target: int, a: Seq<int>, b: Seq<int>, j: int)
    requires
        0 <= j < a.len(),
        j < b.len(),
        forall|i: int| 0 <= i <= j ==> a[i] == b[i],
    ensures
        layout_cost(lens, target, a, j) == layout_cost(lens, target, b, j),
    decreases j,
{
    if j > 0 {
        lemma_layout_cost_prefix(lens, target, a, b, j - 1);
    }
}

/// No layout is cheaper than the best cost.
proof fn lemma_best_is_least(lens: Seq<nat>, target: int, cuts: Seq<int>, i: int, j: int)
    requires
        j >= 1,
        is_layout(cuts, i, j),
    ensures
        best(lens, target, i, j) <= candidate(lens, target, i, j, cuts[j - 1]) <= layout_cost(
            lens,
            target,
            cuts,
            j,
        ),
        j - 1 <= cuts[j - 1] < start_bound(i, j),
    decreases j,
{
    let k = cuts[j - 1];
    lemma_cuts_range(cuts, i, j, j - 1);
    if j > 1 {
        let front = cuts.take(j);
        assert(is_layout(front, k, j - 1));
        lemma_best_is_least(lens, target, front, k, j - 1);
        lemma_layout_cost_prefix(lens, target, front, cuts, j - 1);
    } else {
        assert(layout_cost(lens, target, cuts, 0) == 0);
    }
    lemma_best_before(lens, target, i, j, start_bound(i, j), k);
}

/// Cuts that follow the first best start of each line have the best cost.
proof fn lemma_chosen_cost(lens: Seq<nat>, target: int, cuts: Seq<int>, j: int)
    requires
        1 <= j < cuts.len(),
        forall|l: int|
            1 <= l <= j ==> #[trigger] starts_first(lens, target, cuts, l),
    ensures
        layout_cost(lens, target, cuts, j) == best(lens, target, cuts[j], j),
    decreases j,
{
    assert(starts_first(lens, target, cuts, j));
    if j > 1 {
        lemma_chosen_cost(lens, target, cuts, j - 1);
    } else {
        assert(layout_cost(lens, target, cuts, 0) == 0);
    }
}

/// Cuts that follow the first best start of each line are no later than any as cheap.
proof fn lemma_chosen_first(
    lens: Seq<nat>,
    target: int,
    cuts: Seq<int>,
    other: Seq<int>,
    j: int,
)
    requires
        1 <= j,
        cuts.len() == j + 1,
        is_layout(other, cuts[j], j),
        cuts[0] == 0,
        forall|l: int|
            1 <= l <= j ==> #[trigger] starts_first(lens, target, cuts, l),
        layout_cost(lens, target, other, j) == layout_cost(lens, target, cuts, j),
    ensures
        cuts_no_later(cuts, other),
    decreases j,
{
    let i = cuts[j];
    assert(starts_first(lens, target, cuts, j));
    lemma_chosen_cost(lens, target, cuts, j);
    lemma_best_is_least(lens, target, other, i, j);
    assert(candidate(lens, target, i, j, other[j - 1]) == best(lens, target, i, j));
    assert(cuts[j - 1] <= other[j - 1]);
    if cuts[j - 1] < other[j - 1] {
        assert(cuts[j - 1] < other[j - 1] && forall|l: int|
            j - 1 < l < cuts.len() ==> cuts[l] == other[l]);
    } else if j == 1 {
        assert(cuts =~= other);
    } else {
        let a = cuts.take(j);
        let b = other.take(j);
        assert(is_layout(b, a[j - 1], j - 1));
        assert forall|l: int| 1 <= l <= j - 1 implies #[trigger] starts_first(
            lens,
            target,
            a,
            l,
        ) by {
            assert(starts_first(lens, target, cuts, l));
        }
        lemma_layout_cost_prefix(lens, target, a, cuts, j - 1);
        lemma_layout_cost_prefix(lens, target, b, other, j - 1);
        lemma_chosen_first(lens, target, a, b, j - 1);
        if a == b {
            assert forall|l: int| 0 <= l < cuts.len() implies cuts[l] == other[l] by {
                if l < j {
                    assert(a[l] == b[l]);
                }
            }
            assert(cuts =~= other);
        } else {
            let m = choose|m: int|
                0 <= m < a.len() && #[trigger] a[m] < b[m] && (forall|l: int|
                    m < l < a.len() ==> a[l] == b[l]);
            assert(cuts[m] < other[m]);
            assert forall|l: int| m < l < cuts.len() implies cuts[l] == other[l] by {
                if l < j {
                    assert(a[l] == b[l]);
                }
            }
        }
    }
}

// --- Bounds

proof fn lemma_run_split(lens: Seq<nat>, a: int, b: int, c: int)
    requires
        a <= b <= c,
    ensures
        run_len(lens, a, c) == run_len(lens, a, b) + run_len(lens, b, c),
    decreases c - b,
{
    if b < c {
        lemma_run_split(lens, a, b, c - 1);
    }
}

proof fn lemma_run_range(lens: Seq<nat>, a: int, b: int)
    requires
        0 <= a <= b <= lens.len(),
    ensures
        0 <= run_len(lens, a, b) <= run_len(lens, 0, lens.len() as int),
        run_len(lens, 0, b) >= run_len(lens, a, b),
{
    lemma_run_nonneg(lens, 0, a);
    lemma_run_nonneg(lens, a, b);
    lemma_run_nonneg(lens, b, lens.len() as int);
    lemma_run_split(lens, 0, a, b);
    lemma_run_split(lens, 0, b, lens.len() as int);
}

proof fn lemma_run_nonneg(lens: Seq<nat>, a: int, b: int)
    requires
        0 <= a <= b <= lens.len(),
    ensures
        run_len(lens, a, b) >= 0,
    decreases b - a,
{
    if a < b {
        lemma_run_nonneg(lens, a, b - 1);
    }
}

/// Whether no word is empty, except perhaps the last.
pub open spec fn words_filled(lens: Seq<nat>) -> bool {
    forall|i: int| 0 <= i < lens.len() - 1 ==> #[trigger] lens[i] > 0
}

proof fn lemma_run_filled(lens: Seq<nat>, a: int, b: int)
    requires
        words_filled(lens),
        0 <= a < b <= lens.len() - 1,
    ensures
        run_len(lens, a, b) >= b - a,
    decreases b - a,
{
    assert(lens[b - 1] > 0);
    if a < b - 1 {
        lemma_run_filled(lens, a, b - 1);
    } else {
        assert(run_len(lens, a, a) == 0);
    }
}

proof fn lemma_line_cost_bound(lens: Seq<nat>, target: int, k: int, i: int)
    requires
        words_filled(lens),
        0 <= k < i <= lens.len(),
        0 <= target <= run_len(lens, 0, lens.len() as int),
    ensures
        ({
            let len = run_len(lens, k, i) - (if i < lens.len() {
                1int
            } else {
                0int
            });
            0 <= len <= run_len(lens, 0, lens.len() as int)
        }),
        0 <= line_cost(lens, target, k, i) <= run_len(lens, 0, lens.len() as int) * (run_len(
            lens,
            k,
            i,
        ) + target),
        line_cost(lens, target, k, i) <= run_len(lens, 0, lens.len() as int) * run_len(
            lens,
            0,
            lens.len() as int,
        ),
{
    let total = run_len(lens, 0, lens.len() as int);
    let run = run_len(lens, k, i);
    lemma_run_range(lens, k, i);
    let len = run - (if i < lens.len() {
        1int
    } else {
        0int
    });
    if i < lens.len() {
        lemma_run_filled(lens, k, i);
    }
    let off = len - target;
    assert(0 <= off * off <= total * (run + target) && off * off <= total * total)
        by (nonlinear_arith)
        requires
            off == len - target,
            0 <= len <= run,
            run <= total,
            0 <= target <= total,
    ;
}

proof fn lemma_best_bound(lens: Seq<nat>, target: int, i: int, j: int, m: int)
    requires
        words_filled(lens),
        0 <= target <= run_len(lens, 0, lens.len() as int),
        1 <= j <= i <= lens.len(),
        j <= m <= start_bound(i, j),
    ensures
        0 <= best_before(lens, target, i, j, m) <= run_len(lens, 0, lens.len() as int) * (run_len(
            lens,
            0,
            i,
        ) + j * target),
        0 <= candidate(lens, target, i, j, m - 1) <= run_len(lens, 0, lens.len() as int) * (run_len(
            lens,
            0,
            i,
        ) + j * target),
    decreases j, m,
{
    let total = run_len(lens, 0, lens.len() as int);
    let k = m - 1;
    lemma_line_cost_bound(lens, target, k, i);
    lemma_run_split(lens, 0, k, i);
    let cost = line_cost(lens, target, k, i);
    if j > 1 {
        lemma_best_bound(lens, target, k, j - 1, start_bound(k, j - 1));
        let before = best(lens, target, k, j - 1);
        let a = run_len(lens, 0, k);
        let b = run_len(lens, k, i);
        assert(before + cost <= total * ((a + b) + j * target)) by (nonlinear_arith)
            requires
                before <= total * (a + (j - 1) * target),
                cost <= total * (b + target),
        ;
    } else {
        assert(k == 0);
        assert(run_len(lens, 0, 0) == 0);
        assert(j * target == target) by (nonlinear_arith)
            requires
                j == 1,
        ;
    }
    if m > j {
        lemma_best_bound(lens, target, i, j, m - 1);
    }
    reveal_with_fuel(best_before, 2);
}

// --- Justifying words

/// Machine lengths as numbers.
spec fn as_nats(lens: Seq<usize>) -> Seq<nat> {
    lens.map_values(|len: usize| len as nat)
}

/// Whether the costs of laying out words of these lengths fit in a `usize`.
pub open spec fn costs_fit(lens: Seq<nat>) -> bool {
    2 * run_len(lens, 0, lens.len() as int) * run_len(lens, 0, lens.len() as int) <= usize::MAX
}

fn range_sum(lens: &Vec<usize>, start: usize, end: usize) -> (r: usize)
    requires
        start <= end <= lens@.len(),
        run_len(as_nats(lens@), 0, lens@.len() as int) <= usize::MAX,
    ensures
        r == run_len(as_nats(lens@), start as int, end as int),
{
    let mut sum: usize = 0;
    let mut i: usize = start;
    while i < end
        invariant
            start <= i <= end <= lens@.len(),
            run_len(as_nats(lens@), 0, lens@.len() as int) <= usize::MAX,
            sum == run_len(as_nats(lens@), start as int, i as int),
        decreases end - i,
    {
        proof {
            lemma_run_range(as_nats(lens@), start as int, i + 1);
        }
        sum = sum + lens[i];
        i = i + 1;
    }
    sum
}

/// Whether the first `i` words can stand on `j` lines with at least one word each.
spec fn fits_lines(i: int, j: int) -> bool {
    if j == 0 {
        i == 0
    } else {
        j <= i
    }
}

spec fn row_ok(lens: Seq<nat>, target: int, row: Seq<usize>, j: int) -> bool {
    &&& row.len() == lens.len() + 1
    &&& forall|i: int|
        0 <= i <= lens.len() ==> #[trigger] row[i] == if fits_lines(i, j) {
            best(lens, target, i, j)
        } else {
            usize::MAX as int
        }
}

spec fn starts_ok(lens: Seq<nat>, target: int, row: Seq<usize>, j: int) -> bool {
    &&& row.len() == lens.len() + 1
    &&& forall|i: int|
        j <= i <= lens.len() ==> is_first_best(lens, target, i, j, #[trigger] row[i] as int)
}

/// The state of the search for the last line's start among the first `m` candidates.
spec fn search_ok(
    lens: Seq<nat>,
    target: int,
    i: int,
    j: int,
    m: int,
    cost: usize,
    start: usize,
) -> bool {
    if m < j {
        cost == usize::MAX
    } else {
        &&& cost == best_before(lens, target, i, j, m)
        &&& j - 1 <= start < m
        &&& candidate(lens, target, i, j, start as int) == cost
        &&& forall|e: int|
            j - 1 <= e < start ==> #[trigger] candidate(lens, target, i, j, e) > cost
    }
}

proof fn lemma_cost_fits(lens: Seq<nat>, target: int, lines: int, i: int, j: int, k: int)
    requires
        words_filled(lens),
        costs_fit(lens),
        1 <= j <= lines,
        target == target_len(lens, lines),
        j - 1 <= k < start_bound(i, j),
        j <= i <= lens.len(),
    ensures
        0 <= candidate(lens, target, i, j, k) < usize::MAX,
        0 <= target <= run_len(lens, 0, lens.len() as int),
        run_len(lens, 0, lens.len() as int) * run_len(lens, 0, lens.len() as int) < usize::MAX,
{
    let total = run_len(lens, 0, lens.len() as int);
    lemma_run_range(lens, 0, i);
    vstd::arithmetic::div_mod::lemma_fundamental_div_mod(total, lines);
    vstd::arithmetic::div_mod::lemma_div_pos_is_pos(total, lines);
    assert(0 <= lines * target <= total && 0 <= target <= total) by (nonlinear_arith)
        requires
            total == lines * (total / lines) + total % lines,
            target == total / lines,
            0 <= total % lines,
            0 <= total,
            lines >= 1,
            total / lines >= 0,
    ;
    lemma_best_bound(lens, target, i, j, k + 1);
    let run = run_len(lens, 0, i);
    assert(0 <= j * target <= lines * target) by (nonlinear_arith)
        requires
            1 <= j <= lines,
            0 <= target,
    ;
    assert(total * (run + j * target) <= 2 * total * total && total * total <= 2 * total * total)
        by (nonlinear_arith)
        requires
            0 <= run <= total,
            0 <= j * target <= lines * target,
            lines * target <= total,
    ;
    let square = total * total;
    assert(2 * total * total == 2 * square) by (nonlinear_arith)
        requires
            square == total * total,
    ;
}

/// The costs and starts of the cheapest ways to put the first words on `j` lines, from those for
/// one line less.
fn next_row(lens: &Vec<usize>, target: usize, prev: &Vec<usize>, j: usize, lines: usize) -> (r: (
    Vec<usize>,
    Vec<usize>,
))
    requires
        lens@.len() < usize::MAX,
        1 <= j <= lines <= lens@.len(),
        words_filled(as_nats(lens@)),
        costs_fit(as_nats(lens@)),
        target == target_len(as_nats(lens@), lines as int),
        run_len(as_nats(lens@), 0, lens@.len() as int) <= usize::MAX,
        row_ok(as_nats(lens@), target as int, prev@, j - 1),
    ensures
        row_ok(as_nats(lens@), target as int, r.0@, j as int),
        starts_ok(as_nats(lens@), target as int, r.1@, j as int),
{
    let ghost ns = as_nats(lens@);
    let word_count = lens.len();
    let mut costs: Vec<usize> = Vec::new();
    let mut starts: Vec<usize> = Vec::new();
    costs.push(usize::MAX);
    starts.push(usize::MAX);
    let mut i: usize = 1;
    while i <= word_count
        invariant
            word_count == lens@.len(),
            word_count < usize::MAX,
            1 <= j <= lines <= word_count,
            1 <= i <= word_count + 1,
            ns == as_nats(lens@),
            words_filled(ns),
            costs_fit(ns),
            target == target_len(ns, lines as int),
            run_len(ns, 0, word_count as int) <= usize::MAX,
            row_ok(ns, target as int, prev@, j - 1),
            costs@.len() == i,
            starts@.len() == i,
            forall|e: int|
                0 <= e < i ==> #[trigger] costs@[e] == if fits_lines(e, j as int) {
                    best(ns, target as int, e, j as int)
                } else {
                    usize::MAX as int
                },
            forall|e: int|
                j <= e < i ==> is_first_best(
                    ns,
                    target as int,
                    e,
                    j as int,
                    #[trigger] starts@[e] as int,
                ),
        decreases word_count + 1 - i,
    {
        let mut cost: usize = usize::MAX;
        let mut start: usize = usize::MAX;
        let mut k: usize = j - 1;
        while k < i
            invariant
                word_count == lens@.len(),
                1 <= j <= lines <= word_count,
                1 <= i <= word_count,
                j - 1 <= k,
                k <= i || k == j - 1,
                ns == as_nats(lens@),
                words_filled(ns),
                costs_fit(ns),
                target == target_len(ns, lines as int),
                run_len(ns, 0, word_count as int) <= usize::MAX,
                row_ok(ns, target as int, prev@, j - 1),
                search_ok(
                    ns,
                    target as int,
                    i as int,
                    j as int,
                    if k < start_bound(i as int, j as int) {
                        k as int
                    } else {
                        start_bound(i as int, j as int)
                    },
                    cost,
                    start,
                ),
            decreases i - k,
        {
            let prev_cost = prev[k];
            assert(prev@[k as int] == if fits_lines(k as int, j - 1) {
                best(ns, target as int, k as int, j - 1)
            } else {
                usize::MAX as int
            });
            if prev_cost != usize::MAX {
                assert(fits_lines(k as int, j - 1));
                assert(j == 1 ==> k == 0);
                proof {
                    lemma_cost_fits(ns, target as int, lines as int, i as int, j as int, k as int);
                    lemma_line_cost_bound(ns, target as int, k as int, i as int);
                    if j > 1 {
                        lemma_cost_fits(
                            ns,
                            target as int,
                            lines as int,
                            k as int,
                            j - 1,
                            start_bound(k as int, j - 1) - 1,
                        );
                    }
                }
                let run = range_sum(lens, k, i);
                let len = if i < word_count {
                    run - 1
                } else {
                    run
                };
                let off = if len < target {
                    target - len
                } else {
                    len - target
                };
                assert(off * off == line_cost(ns, target as int, k as int, i as int)
                    && off * off <= usize::MAX) by {
                    let d = len - target;
                    assert(off * off == d * d) by (nonlinear_arith)
                        requires
                            off == d || off == -d,
                    ;
                }
                let total_cost = prev_cost + off * off;
                assert(total_cost == candidate(ns, target as int, i as int, j as int, k as int));
                proof {
                    assert forall|e: int| j - 1 <= e < k implies #[trigger] candidate(
                        ns,
                        target as int,
                        i as int,
                        j as int,
                        e,
                    ) >= cost by {
                        lemma_best_before(ns, target as int, i as int, j as int, k as int, e);
                    }
                    reveal_with_fuel(best_before, 2);
                }
                if total_cost < cost {
                    cost = total_cost;
                    start = k;
                }
            } else {
                proof {
                    if fits_lines(k as int, j - 1) && j > 1 {
                        lemma_cost_fits(
                            ns,
                            target as int,
                            lines as int,
                            k as int,
                            j - 1,
                            start_bound(k as int, j - 1) - 1,
                        );
                        lemma_best_before(
                            ns,
                            target as int,
                            k as int,
                            j - 1,
                            start_bound(k as int, j - 1),
                            start_bound(k as int, j - 1) - 1,
                        );
                    }
                }
                assert(j == 1 && k >= 1);
            }
            k = k + 1;
        }
        costs.push(cost);
        starts.push(start);
        i = i + 1;
    }
    (costs, starts)
}

proof fn lemma_count_fits(lens: Seq<nat>)
    requires
        words_filled(lens),
        costs_fit(lens),
    ensures
        run_len(lens, 0, lens.len() as int) <= usize::MAX,
        lens.len() < usize::MAX,
{
    let total = run_len(lens, 0, lens.len() as int);
    lemma_run_nonneg(lens, 0, lens.len() as int);
    assert(total <= 2 * total * total) by (nonlinear_arith)
        requires
            total >= 0,
    ;
    if lens.len() >= 2 {
        lemma_run_filled(lens, 0, lens.len() - 1);
        lemma_run_range(lens, 0, lens.len() - 1);
        assert(total >= 3 ==> 2 * total * total >= total + 3) by (nonlinear_arith)
            requires
                total >= 0,
        ;
    }
}

/// The starts of the lines, one row per number of lines.
fn start_rows(lens: &Vec<usize>, target: usize, lines: usize) -> (rows: Vec<Vec<usize>>)
    requires
        lens@.len() < usize::MAX,
        1 <= lines <= lens@.len(),
        words_filled(as_nats(lens@)),
        costs_fit(as_nats(lens@)),
        target == target_len(as_nats(lens@), lines as int),
        run_len(as_nats(lens@), 0, lens@.len() as int) <= usize::MAX,
    ensures
        rows@.len() == lines,
        forall|j: int|
            1 <= j <= lines ==> starts_ok(
                as_nats(lens@),
                target as int,
                (#[trigger] rows@[j - 1])@,
                j,
            ),
{
    let ghost ns = as_nats(lens@);
    let mut costs: Vec<usize> = Vec::new();
    costs.push(0);
    let mut i: usize = 0;
    while i < lens.len()
        invariant
            i <= lens@.len(),
            costs@.len() == i + 1,
            costs@[0] == 0,
            forall|e: int| 1 <= e <= i ==> #[trigger] costs@[e] == usize::MAX,
        decreases lens@.len() - i,
    {
        costs.push(usize::MAX);
        i = i + 1;
    }
    assert(row_ok(ns, target as int, costs@, 0));
    let mut rows: Vec<Vec<usize>> = Vec::new();
    let mut j: usize = 1;
    while j <= lines
        invariant
            lens@.len() < usize::MAX,
            1 <= j <= lines + 1,
            lines <= lens@.len(),
            ns == as_nats(lens@),
            words_filled(ns),
            costs_fit(ns),
            target == target_len(ns, lines as int),
            run_len(ns, 0, lens@.len() as int) <= usize::MAX,
            row_ok(ns, target as int, costs@, j - 1),
            rows@.len() == j - 1,
            forall|l: int|
                1 <= l < j ==> starts_ok(ns, target as int, (#[trigger] rows@[l - 1])@, l),
        decreases lines + 1 - j,
    {
        let (next, starts) = next_row(lens, target, &costs, j, lines);
        costs = next;
        rows.push(starts);
        j = j + 1;
    }
    rows
}

/// Puts words on `lines` lines of about the same length, going by byte counts.
pub fn justify_words(words: &Vec<String>, lines: usize) -> (r: Vec<String>)
    requires
        1 <= lines <= words@.len(),
        words_filled(word_lens(texts(words@))),
        costs_fit(word_lens(texts(words@))),
    ensures
        exists|cuts: Seq<int>|
            {
                &&& #[trigger] is_best_layout(word_lens(texts(words@)), lines as int, cuts)
                &&& texts(r@) == lines_of(texts(words@), cuts)
            },
{
    let ghost wl = word_lens(texts(words@));
    let mut lens: Vec<usize> = Vec::new();
    let mut i: usize = 0;
    while i < words.len()
        invariant
            i <= words@.len(),
            lens@.len() == i,
            wl == word_lens(texts(words@)),
            forall|e: int| 0 <= e < i ==> #[trigger] lens@[e] == wl[e],
        decreases words@.len() - i,
    {
        lens.push(text_len(words[i].as_str()));
        i = i + 1;
    }
    assert(as_nats(lens@) =~= wl);
    proof {
        lemma_count_fits(wl);
    }
    let word_count = lens.len();
    let total = range_sum(&lens, 0, word_count);
    let target = total / lines;
    let rows = start_rows(&lens, target, lines);
    let mut cuts: Vec<usize> = vec![0; lines + 1];
    cuts.set(lines, word_count);
    let mut j: usize = lines;
    while j > 0
        invariant
            0 <= j <= lines <= word_count,
            word_count == wl.len(),
            rows@.len() == lines,
            cuts@.len() == lines + 1,
            cuts@[lines as int] == word_count,
            j <= cuts@[j as int] <= word_count,
            j == 0 ==> cuts@[0] == 0,
            forall|l: int|
                1 <= l <= lines ==> starts_ok(wl, target as int, (#[trigger] rows@[l - 1])@, l),
            forall|l: int|
                j < l <= lines ==> is_first_best(
                    wl,
                    target as int,
                    #[trigger] cuts@[l] as int,
                    l,
                    cuts@[l - 1] as int,
                ),
        decreases j,
    {
        let ghost before = cuts@;
        let end = cuts[j];
        let row = &rows[j - 1];
        assert(starts_ok(wl, target as int, rows@[j - 1]@, j as int));
        let start = row[end];
        assert(is_first_best(wl, target as int, end as int, j as int, start as int));
        cuts.set(j - 1, start);
        j = j - 1;
        assert forall|l: int| j < l <= lines implies is_first_best(
            wl,
            target as int,
            #[trigger] cuts@[l] as int,
            l,
            cuts@[l - 1] as int,
        ) by {
            if l > j + 1 {
                assert(is_first_best(wl, target as int, before[l] as int, l, before[l - 1] as int));
            }
        }
    }
    let ghost layout = cuts@.map_values(|c: usize| c as int);
    proof {
        assert forall|l: int| 1 <= l <= lines implies #[trigger] starts_first(
            wl,
            target as int,
            layout,
            l,
        ) by {
            assert(is_first_best(wl, target as int, cuts@[l] as int, l, cuts@[l - 1] as int));
        }
        lemma_chosen_is_best(wl, lines as int, layout);
    }
    let mut out: Vec<String> = Vec::new();
    let mut line: usize = 0;
    while line < lines
        invariant
            line <= lines,
            cuts@.len() == lines + 1,
            layout == cuts@.map_values(|c: usize| c as int),
            is_layout(layout, words@.len() as int, lines as int),
            out@.len() == line,
            forall|l: int|
                0 <= l < line ==> #[trigger] out@[l]@ == lines_of(texts(words@), layout)[l],
        decreases lines - line,
    {
        proof {
            lemma_cuts_range(layout, words@.len() as int, lines as int, line as int);
            lemma_cuts_range(layout, words@.len() as int, lines as int, line + 1);
            assert(layout[line as int] < layout[line + 1]);
        }
        out.push(concat_range(words, cuts[line], cuts[line + 1]));
        line = line + 1;
    }
    assert(texts(out@) =~= lines_of(texts(words@), layout));
    out
}

/// Cuts that follow the first best start of each line are the best layout.
proof fn lemma_chosen_is_best(lens: Seq<nat>, lines: int, cuts: Seq<int>)
    requires
        1 <= lines <= lens.len(),
        cuts.len() == lines + 1,
        cuts[0] == 0,
        cuts[lines] == lens.len(),
        forall|l: int|
            1 <= l <= lines ==> #[trigger] starts_first(lens, target_len(lens, lines), cuts, l),
    ensures
        is_best_layout(lens, lines, cuts),
{
    let target = target_len(lens, lines);
    assert forall|i: int, j: int| 0 <= i < j <= lines implies cuts[i] < cuts[j] by {
        lemma_chosen_increasing(lens, target, cuts, i, j);
    }
    lemma_chosen_cost(lens, target, cuts, lines);
    assert forall|other: Seq<int>| #[trigger]
        is_layout(other, lens.len() as int, lines) implies {
        &&& layout_cost(lens, target, cuts, lines) <= layout_cost(lens, target, other, lines)
        &&& layout_cost(lens, target, cuts, lines) == layout_cost(lens, target, other, lines)
            ==> cuts_no_later(cuts, other)
    } by {
        lemma_best_is_least(lens, target, other, lens.len() as int, lines);
        if layout_cost(lens, target, cuts, lines) == layout_cost(lens, target, other, lines) {
            lemma_chosen_first(lens, target, cuts, other, lines);
        }
    }
}

proof fn lemma_chosen_increasing(lens: Seq<nat>, target: int, cuts: Seq<int>, i: int, j: int)
    requires
        0 <= i < j < cuts.len(),
        cuts[0] == 0,
        cuts.last() > 0,
        forall|l: int|
            1 <= l < cuts.len() ==> #[trigger] starts_first(lens, target, cuts, l),
    ensures
        cuts[i] < cuts[j],
    decreases j,
{
    assert(starts_first(lens, target, cuts, j));
    if j == 1 {
        if cuts.len() > 2 {
            assert(starts_first(lens, target, cuts, 2));
        }
    }
    if i < j - 1 {
        lemma_chosen_increasing(lens, target, cuts, i, j - 1);
    }
}

// --- Splitting a word

/// Where the `i`-th of `count` even pieces of a word of `len` bytes starts.
pub open spec fn piece_start(len: int, count: int, i: int) -> int {
    (len * i + count / 2) / count
}

/// How many pieces a word is split into: not more than it has bytes before its trailing spaces.
pub open spec fn piece_count(word: Seq<char>, count: int) -> int {
    if byte_len(trimmed_end(word)) < count {
        byte_len(trimmed_end(word)) as int
    } else {
        count
    }
}

/// Where the pieces of a word start and, at last, where the word ends.
pub open spec fn piece_cuts(word: Seq<char>, count: int) -> Seq<int> {
    let n = piece_count(word, count);
    Seq::new(n as nat, |i: int| piece_start(byte_len(trimmed_end(word)) as int, n, i)).push(
        byte_len(word) as int,
    )
}

/// A word split into even pieces. Trailing spaces stay with the last piece; a word of nothing but
/// spaces stays whole.
pub open spec fn word_pieces(word: Seq<char>, count: int) -> Seq<Seq<char>> {
    if count <= 1 || byte_len(trimmed_end(word)) == 0 {
        seq![word]
    } else {
        let cuts = piece_cuts(word, count);
        Seq::new(
            piece_count(word, count) as nat,
            |i: int| decode_utf8(encode_utf8(word).subrange(cuts[i], cuts[i + 1])),
        )
    }
}

/// Whether splitting the word into `count` pieces cuts between characters only, and the cuts can
/// be computed in a `usize`.
pub open spec fn can_split(word: Seq<char>, count: int) -> bool {
    let n = piece_count(word, count);
    count <= 1 || {
        &&& byte_len(trimmed_end(word)) * n + n <= usize::MAX
        &&& forall|i: int|
            0 <= i < n ==> is_char_boundary(
                encode_utf8(word),
                #[trigger] piece_start(byte_len(trimmed_end(word)) as int, n, i),
            )
    }
}

/// The bytes of two texts one after the other are those of each.
pub proof fn lemma_encode_concat(a: Seq<char>, b: Seq<char>)
    ensures
        encode_utf8(a + b) == encode_utf8(a) + encode_utf8(b),
    decreases a.len(),
{
    if a.len() == 0 {
        assert(a + b =~= b);
        assert(encode_utf8(a) + encode_utf8(b) =~= encode_utf8(b));
    } else {
        assert((a + b).drop_first() =~= a.drop_first() + b);
        lemma_encode_concat(a.drop_first(), b);
        assert(encode_utf8(a + b) =~= encode_utf8(a) + encode_utf8(b));
    }
}

proof fn lemma_trimmed_is_prefix(s: Seq<char>)
    ensures
        trimmed_end(s).len() <= s.len(),
        trimmed_end(s) == s.take(trimmed_end(s).len() as int),
        byte_len(trimmed_end(s)) <= byte_len(s),
    decreases s.len(),
{
    if s.len() > 0 && s.last() == ' ' {
        lemma_trimmed_is_prefix(s.drop_last());
        assert(trimmed_end(s) =~= s.take(trimmed_end(s).len() as int));
        lemma_encode_concat(s.drop_last(), seq![s.last()]);
        assert(s.drop_last() + seq![s.last()] =~= s);
    } else {
        assert(s.take(s.len() as int) =~= s);
    }
}

proof fn lemma_piece_start(len: int, count: int, i: int)
    requires
        1 <= count <= len,
        0 <= i < count,
    ensures
        0 <= piece_start(len, count, i),
        piece_start(len, count, 0) == 0,
        i + 1 < count ==> piece_start(len, count, i) < piece_start(len, count, i + 1),
        piece_start(len, count, i) < len,
        len * i + count / 2 <= len * count + count,
{
    let half = count / 2;
    let a = len * i + half;
    assert(0 <= a) by (nonlinear_arith)
        requires
            a == len * i + half,
            len >= 0,
            i >= 0,
            half >= 0,
    ;
    assert(a <= len * count + count && a < len * count) by (nonlinear_arith)
        requires
            a == len * i + half,
            i <= count - 1,
            1 <= count <= len,
            0 <= half,
            2 * half <= count,
    ;
    vstd::arithmetic::div_mod::lemma_div_pos_is_pos(a, count);
    assert(len * 0 == 0);
    vstd::arithmetic::div_mod::lemma_basic_div(half, count);
    vstd::arithmetic::div_mod::lemma_fundamental_div_mod(a, count);
    vstd::arithmetic::div_mod::lemma_mod_division_less_than_divisor(a, count);
    assert(a / count < len) by (nonlinear_arith)
        requires
            a == count * (a / count) + a % count,
            0 <= a % count,
            a < len * count,
            count >= 1,
    ;
    if i + 1 < count {
        let b = len * (i + 1) + half;
        assert(b == a + len) by (nonlinear_arith)
            requires
                a == len * i + half,
                b == len * (i + 1) + half,
        ;
        vstd::arithmetic::div_mod::lemma_fundamental_div_mod(b, count);
        vstd::arithmetic::div_mod::lemma_mod_division_less_than_divisor(b, count);
        assert(a / count < b / count) by (nonlinear_arith)
            requires
                a == count * (a / count) + a % count,
                b == count * (b / count) + b % count,
                0 <= a % count < count,
                0 <= b % count < count,
                b == a + len,
                len >= count,
                count >= 1,
        ;
    }
}

/// The pieces of a word start one after another, within it.
pub proof fn lemma_piece_cuts(word: Seq<char>, count: int, i: int)
    requires
        count > 1,
        0 <= i < piece_count(word, count),
    ensures
        piece_cuts(word, count).len() == piece_count(word, count) + 1,
        piece_cuts(word, count)[0] == 0,
        0 <= piece_cuts(word, count)[i] < piece_cuts(word, count)[i + 1] <= byte_len(word),
{
    lemma_trimmed_is_prefix(word);
    let len = byte_len(trimmed_end(word)) as int;
    let n = piece_count(word, count);
    lemma_piece_start(len, n, 0);
    lemma_piece_start(len, n, i);
    if i + 1 < n {
        lemma_piece_start(len, n, i + 1);
    }
}

/// A character boundary of the whole is one of the part that starts at an earlier boundary.
proof fn lemma_boundary_of_rest(bytes: Seq<u8>, a: int, b: int)
    requires
        vstd::utf8::valid_utf8(bytes),
        0 <= a <= b <= bytes.len(),
        is_char_boundary(bytes, a),
        is_char_boundary(bytes, b),
    ensures
        vstd::utf8::valid_utf8(bytes.skip(a)),
        is_char_boundary(bytes.skip(a), b - a),
{
    let rest = bytes.skip(a);
    vstd::utf8::valid_utf8_split(bytes, a);
    assert(rest =~= bytes.subrange(a, bytes.len() as int));
    if b == bytes.len() {
        vstd::utf8::is_char_boundary_start_end_of_seq(rest);
    } else {
        vstd::utf8::is_char_boundary_iff_not_is_continuation_byte(bytes, b);
        vstd::utf8::is_char_boundary_iff_not_is_continuation_byte(rest, b - a);
    }
}

proof fn lemma_piece_text(word: Seq<char>, rest: Seq<char>, piece: Seq<char>, a: int, b: int)
    requires
        0 <= a <= b <= encode_utf8(word).len(),
        encode_utf8(rest) == encode_utf8(word).skip(a),
        encode_utf8(piece) == encode_utf8(rest).subrange(0, b - a),
    ensures
        piece == decode_utf8(encode_utf8(word).subrange(a, b)),
{
    assert(encode_utf8(rest).subrange(0, b - a) =~= encode_utf8(word).subrange(a, b));
    vstd::utf8::encode_utf8_decode_utf8(piece);
}

/// Splits a word into even pieces, going by byte counts. Trailing spaces stay with the last piece;
/// a word of nothing but spaces stays whole.
pub fn split_word(word: &str, count: usize) -> (r: Vec<String>)
    requires
        can_split(word@, count as int),
    ensures
        texts(r@) == word_pieces(word@, count as int),
{
    let just_word = trim_end_spaces(word);
    let len = text_len(just_word.as_str());
    if count <= 1 || len == 0 {
        let mut whole: Vec<String> = Vec::new();
        whole.push(word.to_owned());
        assert(texts(whole@) =~= seq![word@]);
        return whole;
    }
    let n = if len < count {
        len
    } else {
        count
    };
    let ghost bytes = encode_utf8(word@);
    let ghost cuts = piece_cuts(word@, count as int);
    let mut out: Vec<String> = Vec::new();
    let mut rest: &str = word;
    let mut at: usize = 0;
    let mut i: usize = 0;
    assert(bytes.skip(0) =~= bytes);
    proof {
        lemma_piece_cuts(word@, count as int, 0);
    }
    while i < n
        invariant
            i <= n,
            count > 1,
            n == piece_count(word@, count as int),
            len == byte_len(trimmed_end(word@)),
            len > 0,
            can_split(word@, count as int),
            bytes == encode_utf8(word@),
            cuts == piece_cuts(word@, count as int),
            at == cuts[i as int],
            encode_utf8(rest@) == bytes.skip(at as int),
            out@.len() == i,
            forall|j: int|
                0 <= j < i ==> #[trigger] out@[j]@ == word_pieces(word@, count as int)[j],
        decreases n - i,
    {
        proof {
            lemma_piece_cuts(word@, count as int, i as int);
            vstd::utf8::encode_utf8_valid_utf8(word@);
            assert(is_char_boundary(bytes, piece_start(len as int, n as int, i as int)));
        }
        if i + 1 < n {
            proof {
                lemma_piece_cuts(word@, count as int, i + 1);
                lemma_piece_start(len as int, n as int, i + 1);
                assert(is_char_boundary(bytes, piece_start(len as int, n as int, i + 1)));
                lemma_boundary_of_rest(bytes, at as int, cuts[i + 1]);
                assert(len * (i + 1) <= len * n) by (nonlinear_arith)
                    requires
                        i + 1 <= n,
                        len >= 0,
                ;
            }
            let next = (len * (i + 1) + n / 2) / n;
            assert(next == cuts[i + 1]);
            let (piece, tail) = rest.split_at(next - at);
            proof {
                lemma_piece_text(word@, rest@, piece@, at as int, next as int);
                assert(encode_utf8(tail@) =~= bytes.skip(next as int));
            }
            out.push(piece.to_owned());
            rest = tail;
            at = next;
        } else {
            let end = text_len(word);
            proof {
                assert(encode_utf8(rest@) =~= encode_utf8(rest@).subrange(0, end - at));
                lemma_piece_text(word@, rest@, rest@, at as int, end as int);
            }
            out.push(rest.to_owned());
            rest = "";
            at = end;
            proof {
                reveal_strlit("");
                assert(rest@ =~= Seq::<char>::empty());
                assert(encode_utf8(rest@) =~= bytes.skip(at as int));
            }
        }
        i = i + 1;
    }
    assert(texts(out@) =~= word_pieces(word@, count as int));
    out
}

/// The first pieces of a word are its text up to where the next one starts.
pub proof fn lemma_pieces_prefix(word: Seq<char>, count: int, n: int)
    requires
        count > 1,
        can_split(word, count),
        0 <= n <= piece_count(word, count),
        piece_count(word, count) > 0,
    ensures
        encode_utf8(flat(word_pieces(word, count).take(n))) == encode_utf8(word).take(
            piece_cuts(word, count)[n],
        ),
    decreases n,
{
    let bytes = encode_utf8(word);
    let cuts = piece_cuts(word, count);
    let pieces = word_pieces(word, count);
    vstd::utf8::encode_utf8_valid_utf8(word);
    if n == 0 {
        lemma_piece_cuts(word, count, 0);
        assert(pieces.take(0) =~= Seq::empty());
        assert(bytes.take(0) =~= Seq::empty());
    } else {
        lemma_piece_cuts(word, count, n - 1);
        lemma_pieces_prefix(word, count, n - 1);
        let len = byte_len(trimmed_end(word)) as int;
        let total = piece_count(word, count);
        let a = cuts[n - 1];
        let b = cuts[n];
        assert(is_char_boundary(bytes, piece_start(len, total, n - 1)));
        if n < total {
            lemma_piece_cuts(word, count, n);
            assert(is_char_boundary(bytes, piece_start(len, total, n)));
        } else {
            vstd::utf8::is_char_boundary_start_end_of_seq(bytes);
        }
        lemma_boundary_of_rest(bytes, a, b);
        let rest = bytes.skip(a);
        vstd::utf8::valid_utf8_split(rest, b - a);
        assert(rest.subrange(0, b - a) =~= bytes.subrange(a, b));
        vstd::utf8::decode_utf8_encode_utf8(bytes.subrange(a, b));
        assert(pieces.take(n).drop_last() =~= pieces.take(n - 1));
        lemma_encode_concat(flat(pieces.take(n - 1)), pieces[n - 1]);
        assert(bytes.take(a) + bytes.subrange(a, b) =~= bytes.take(b));
    }
}

/// The pieces of a word, put together again, are the word.
pub proof fn lemma_word_pieces_flat(word: Seq<char>, count: int)
    requires
        can_split(word, count),
    ensures
        flat(word_pieces(word, count)) == word,
{
    if count <= 1 || byte_len(trimmed_end(word)) == 0 {
        reveal_with_fuel(flat, 2);
        assert(flat(seq![word]) =~= word);
    } else {
        let n = piece_count(word, count);
        lemma_pieces_prefix(word, count, n);
        let pieces = word_pieces(word, count);
        assert(pieces.take(n) =~= pieces);
        assert(encode_utf8(word).take(byte_len(word) as int) =~= encode_utf8(word));
        vstd::utf8::encode_utf8_decode_utf8(flat(pieces));
        vstd::utf8::encode_utf8_decode_utf8(word);
    }
}

// --- Splitting a text

/// The length of each piece of a word when it is split into `amount` pieces, in thousandths.
pub open spec fn piece_width(len: nat, amount: nat) -> nat {
    1000 * len / amount
}

/// The word, of the first `n`, with the widest pieces; of several, the last.
pub open spec fn widest(lens: Seq<nat>, amounts: Seq<nat>, n: int) -> int
    decreases n,
{
    if n <= 1 {
        0
    } else {
        let w = widest(lens, amounts, n - 1);
        if piece_width(lens[n - 1], amounts[n - 1]) >= piece_width(lens[w], amounts[w]) {
            n - 1
        } else {
            w
        }
    }
}

/// The numbers of pieces after `extra` more pieces have gone, one by one, to the word with the
/// widest pieces.
pub open spec fn grown(lens: Seq<nat>, amounts: Seq<nat>, extra: nat) -> Seq<nat>
    decreases extra,
{
    if extra == 0 || lens.len() == 0 {
        amounts
    } else {
        let w = widest(lens, amounts, lens.len() as int);
        grown(lens, amounts.update(w, amounts[w] + 1), (extra - 1) as nat)
    }
}

/// The byte lengths of some words without their trailing spaces.
pub open spec fn trimmed_lens(words: Seq<Seq<char>>) -> Seq<nat> {
    words.map_values(|w: Seq<char>| byte_len(trimmed_end(w)))
}

/// How many pieces each word is split into so that there are `count` in all.
pub open spec fn piece_amounts(words: Seq<Seq<char>>, count: int) -> Seq<nat> {
    grown(
        trimmed_lens(words),
        Seq::new(words.len(), |i: int| 1nat),
        (count - words.len()) as nat,
    )
}

/// The pieces of the first `n` words, in order.
pub open spec fn pieces_of(words: Seq<Seq<char>>, amounts: Seq<nat>, n: int) -> Seq<Seq<char>>
    decreases n,
{
    if n <= 0 {
        Seq::empty()
    } else {
        pieces_of(words, amounts, n - 1) + word_pieces(words[n - 1], amounts[n - 1] as int)
    }
}

/// Whether the text can be split into `count` pieces: words are cut between characters only, and
/// no length computed on the way exceeds a `usize`.
pub open spec fn can_split_evenly(text: Seq<char>, count: int) -> bool {
    let words = words_of(text);
    if count <= 1 || words.len() == count {
        true
    } else if count > words.len() {
        forall|i: int|
            0 <= i < words.len() ==> 1000 * byte_len(trimmed_end(#[trigger] words[i])) <= usize::MAX
                && can_split(words[i], piece_amounts(words, count)[i] as int)
    } else {
        costs_fit(word_lens(words))
    }
}

/// Whether `pieces` is the text split into about `count` even pieces: words are kept whole if
/// there are enough of them, and share the lines evenly; otherwise the longest are split.
pub open spec fn is_even_split(text: Seq<char>, count: int, pieces: Seq<Seq<char>>) -> bool {
    let words = words_of(text);
    if count <= 1 {
        pieces == seq![text]
    } else if words.len() == count {
        pieces == words
    } else if count > words.len() {
        pieces == pieces_of(words, piece_amounts(words, count), words.len() as int)
    } else {
        exists|cuts: Seq<int>|
            {
                &&& #[trigger] is_best_layout(word_lens(words), count, cuts)
                &&& pieces == lines_of(words, cuts)
            }
    }
}

/// The word with the widest pieces is one of the words.
pub proof fn lemma_widest_range(lens: Seq<nat>, amounts: Seq<nat>, n: int)
    requires
        n >= 1,
    ensures
        0 <= widest(lens, amounts, n) < n,
    decreases n,
{
    if n > 1 {
        lemma_widest_range(lens, amounts, n - 1);
    }
}

/// The sum of some numbers.
pub open spec fn total_of(amounts: Seq<nat>) -> nat
    decreases amounts.len(),
{
    if amounts.len() == 0 {
        0
    } else {
        total_of(amounts.drop_last()) + amounts.last()
    }
}

proof fn lemma_total_update(amounts: Seq<nat>, w: int)
    requires
        0 <= w < amounts.len(),
    ensures
        total_of(amounts.update(w, amounts[w] + 1)) == total_of(amounts) + 1,
    decreases amounts.len(),
{
    let more = amounts.update(w, amounts[w] + 1);
    if w == amounts.len() - 1 {
        assert(more.drop_last() =~= amounts.drop_last());
    } else {
        assert(more.drop_last() =~= amounts.drop_last().update(w, amounts[w] + 1));
        lemma_total_update(amounts.drop_last(), w);
    }
}

/// Growing adds as many pieces as asked for, if there is any word, and takes none away.
pub proof fn lemma_grown(lens: Seq<nat>, amounts: Seq<nat>, extra: nat)
    requires
        amounts.len() == lens.len(),
    ensures
        grown(lens, amounts, extra).len() == amounts.len(),
        lens.len() > 0 ==> total_of(grown(lens, amounts, extra)) == total_of(amounts) + extra,
        forall|i: int|
            0 <= i < amounts.len() ==> amounts[i] <= #[trigger] grown(lens, amounts, extra)[i]
                <= amounts[i] + extra,
    decreases extra,
{
    if extra > 0 && lens.len() > 0 {
        let w = widest(lens, amounts, lens.len() as int);
        lemma_widest_range(lens, amounts, lens.len() as int);
        lemma_total_update(amounts, w);
        let more = amounts.update(w, amounts[w] + 1);
        lemma_grown(lens, more, (extra - 1) as nat);
    }
}

/// The index of the word with the widest pieces.
fn find_widest(lens: &Vec<usize>, amounts: &Vec<usize>) -> (r: usize)
    requires
        lens@.len() > 0,
        amounts@.len() == lens@.len(),
        forall|i: int| 0 <= i < lens@.len() ==> 1000 * #[trigger] lens@[i] <= usize::MAX,
        forall|i: int| 0 <= i < amounts@.len() ==> #[trigger] amounts@[i] > 0,
    ensures
        r == widest(as_nats(lens@), as_nats(amounts@), lens@.len() as int),
        r < lens@.len(),
{
    let mut w: usize = 0;
    let mut i: usize = 1;
    while i < lens.len()
        invariant
            1 <= i <= lens@.len(),
            amounts@.len() == lens@.len(),
            forall|e: int| 0 <= e < lens@.len() ==> 1000 * #[trigger] lens@[e] <= usize::MAX,
            forall|e: int| 0 <= e < amounts@.len() ==> #[trigger] amounts@[e] > 0,
            w == widest(as_nats(lens@), as_nats(amounts@), i as int),
            w < i,
        decreases lens@.len() - i,
    {
        assert(1000 * lens@[i as int] <= usize::MAX && 1000 * lens@[w as int] <= usize::MAX);
        if 1000 * lens[i] / amounts[i] >= 1000 * lens[w] / amounts[w] {
            w = i;
        }
        i = i + 1;
    }
    w
}

/// Shares out `extra` more pieces among words of the given lengths that have one piece each.
fn grow_amounts(lens: &Vec<usize>, extra: usize) -> (amounts: Vec<usize>)
    requires
        forall|i: int| 0 <= i < lens@.len() ==> 1000 * #[trigger] lens@[i] <= usize::MAX,
        extra < usize::MAX,
    ensures
        as_nats(amounts@) == grown(
            as_nats(lens@),
            Seq::new(lens@.len(), |i: int| 1nat),
            extra as nat,
        ),
{
    let mut amounts: Vec<usize> = vec![1; lens.len()];
    let ghost ns = as_nats(lens@);
    let ghost wanted = grown(ns, Seq::new(lens@.len(), |i: int| 1nat), extra as nat);
    assert(as_nats(amounts@) =~= Seq::new(lens@.len(), |i: int| 1nat));
    let mut left: usize = extra;
    while left > 0 && lens.len() > 0
        invariant
            left <= extra < usize::MAX,
            ns == as_nats(lens@),
            amounts@.len() == lens@.len(),
            forall|e: int| 0 <= e < lens@.len() ==> 1000 * #[trigger] lens@[e] <= usize::MAX,
            forall|e: int|
                0 <= e < amounts@.len() ==> 0 < #[trigger] amounts@[e] <= 1 + extra - left,
            grown(ns, as_nats(amounts@), left as nat) == wanted,
        decreases left,
    {
        let w = find_widest(lens, &amounts);
        let ghost before = as_nats(amounts@);
        let more = amounts[w] + 1;
        amounts.set(w, more);
        assert(as_nats(amounts@) =~= before.update(w as int, (before[w as int] + 1) as nat));
        left = left - 1;
    }
    amounts
}

/// Splits a text into about `count` even pieces, going by byte counts.
pub fn split_evenly(text: &str, count: usize) -> (r: Vec<String>)
    requires
        can_split_evenly(text@, count as int),
    ensures
        is_even_split(text@, count as int, texts(r@)),
{
    if count <= 1 {
        let mut whole: Vec<String> = Vec::new();
        whole.push(text.to_owned());
        assert(texts(whole@) =~= seq![text@]);
        return whole;
    }
    let words = split_words(text);
    let ghost ws = words_of(text@);
    assert(words@.len() == texts(words@).len());
    if words.len() == count {
        return words;
    }
    if count > words.len() {
        let mut lens: Vec<usize> = Vec::new();
        let mut i: usize = 0;
        while i < words.len()
            invariant
                i <= words@.len(),
                texts(words@) == ws,
                lens@.len() == i,
                forall|e: int| 0 <= e < i ==> #[trigger] lens@[e] == trimmed_lens(ws)[e],
            decreases words@.len() - i,
        {
            assert(ws[i as int] == words@[i as int]@);
            let trimmed = trim_end_spaces(words[i].as_str());
            lens.push(text_len(trimmed.as_str()));
            i = i + 1;
        }
        assert(as_nats(lens@) =~= trimmed_lens(ws));
        assert forall|e: int| 0 <= e < lens@.len() implies 1000 * #[trigger] lens@[e]
            <= usize::MAX by {
            assert(1000 * byte_len(trimmed_end(ws[e])) <= usize::MAX);
        }
        let extra = count - words.len();
        if words.len() == 0 {
            let none: Vec<String> = Vec::new();
            assert(texts(none@) =~= Seq::<Seq<char>>::empty());
            return none;
        }
        let amounts = grow_amounts(&lens, extra);
        assert(as_nats(amounts@) == piece_amounts(ws, count as int));
        proof {
            lemma_grown(trimmed_lens(ws), Seq::new(ws.len(), |i: int| 1nat), extra as nat);
        }
        let mut out: Vec<String> = Vec::new();
        let mut k: usize = 0;
        while k < words.len()
            invariant
                k <= words@.len(),
                count > words@.len(),
                count > 1,
                texts(words@) == ws,
                ws == words_of(text@),
                as_nats(amounts@) == piece_amounts(ws, count as int),
                amounts@.len() == words@.len(),
                can_split_evenly(text@, count as int),
                texts(out@) == pieces_of(ws, as_nats(amounts@), k as int),
            decreases words@.len() - k,
        {
            assert(ws[k as int] == words@[k as int]@);
            assert(as_nats(amounts@)[k as int] == amounts@[k as int]);
            let mut pieces = split_word(words[k].as_str(), amounts[k]);
            let ghost before = out@;
            let ghost added = pieces@;
            out.append(&mut pieces);
            assert(texts(out@) =~= texts(before) + texts(added));
            k = k + 1;
        }
        out
    } else {
        proof {
            crate::text::lemma_words_of(text@);
            assert forall|i: int| 0 <= i < ws.len() implies #[trigger] word_lens(ws)[i] > 0 by {
                assert(ws[i].len() > 0);
                vstd::utf8::encode_utf8_first_scalar(ws[i]);
            }
        }
        justify_words(&words, count)
    }
}

proof fn lemma_pieces_of_flat(words: Seq<Seq<char>>, amounts: Seq<nat>, n: int)
    requires
        amounts.len() == words.len(),
        0 <= n <= words.len(),
        forall|i: int|
            0 <= i < words.len() ==> can_split(#[trigger] words[i], amounts[i] as int),
    ensures
        flat(pieces_of(words, amounts, n)) == flat(words.take(n)),
    decreases n,
{
    if n > 0 {
        lemma_pieces_of_flat(words, amounts, n - 1);
        assert(can_split(words[n - 1], amounts[n - 1] as int));
        lemma_word_pieces_flat(words[n - 1], amounts[n - 1] as int);
        lemma_flat_concat(
            pieces_of(words, amounts, n - 1),
            word_pieces(words[n - 1], amounts[n - 1] as int),
        );
        assert(words.take(n).drop_last() =~= words.take(n - 1));
    } else {
        assert(words.take(0) =~= Seq::empty());
    }
}

/// The pieces of a text, put together again, are the text.
pub proof fn lemma_even_split_flat(text: Seq<char>, count: int, pieces: Seq<Seq<char>>)
    requires
        can_split_evenly(text, count),
        is_even_split(text, count, pieces),
    ensures
        flat(pieces) == text,
{
    let words = words_of(text);
    crate::text::lemma_words_of(text);
    if count <= 1 {
        reveal_with_fuel(flat, 2);
        assert(flat(seq![text]) =~= text);
    } else if words.len() == count {
    } else if count > words.len() {
        lemma_grown(
            trimmed_lens(words),
            Seq::new(words.len(), |i: int| 1nat),
            (count - words.len()) as nat,
        );
        lemma_pieces_of_flat(words, piece_amounts(words, count), words.len() as int);
        assert(words.take(words.len() as int) =~= words);
    } else {
        let cuts = choose|cuts: Seq<int>|
            {
                &&& #[trigger] is_best_layout(word_lens(words), count, cuts)
                &&& pieces == lines_of(words, cuts)
            };
        lemma_lines_of_flat(words, cuts, count);
    }
}

/// The most pieces that words of these lengths can be split into: one for each byte, and at least
/// one.
pub open spec fn most_pieces(lens: Seq<nat>) -> Seq<nat> {
    lens.map_values(
        |len: nat|
            if len == 0 {
                1nat
            } else {
                len
            },
    )
}

/// Whether every word is shorter than a thousand bytes, so that thousandths of a piece tell apart
/// the words that can still be split.
pub open spec fn words_short(lens: Seq<nat>) -> bool {
    forall|i: int| 0 <= i < lens.len() ==> #[trigger] lens[i] < 1000
}

/// The numbers in `a`, each at most the one at the same place in `b`.
spec fn at_most(a: Seq<nat>, b: Seq<nat>) -> Seq<nat> {
    Seq::new(
        a.len(),
        |i: int|
            if a[i] <= b[i] {
                a[i]
            } else {
                b[i]
            },
    )
}

proof fn lemma_pieces_of_len(words: Seq<Seq<char>>, amounts: Seq<nat>, n: int)
    requires
        amounts.len() == words.len(),
        0 <= n <= words.len(),
        forall|i: int| 0 <= i < amounts.len() ==> #[trigger] amounts[i] >= 1,
    ensures
        pieces_of(words, amounts, n).len() == total_of(
            at_most(amounts, most_pieces(trimmed_lens(words))).take(n),
        ),
    decreases n,
{
    if n > 0 {
        lemma_pieces_of_len(words, amounts, n - 1);
        let counts = at_most(amounts, most_pieces(trimmed_lens(words)));
        assert(counts.take(n).drop_last() =~= counts.take(n - 1));
        assert(amounts[n - 1] >= 1);
        assert(word_pieces(words[n - 1], amounts[n - 1] as int).len() == counts[n - 1]);
    }
}

proof fn lemma_total_ones(n: nat)
    ensures
        total_of(Seq::new(n, |i: int| 1nat)) == n,
    decreases n,
{
    if n > 0 {
        lemma_total_ones((n - 1) as nat);
        assert(Seq::new(n, |i: int| 1nat).drop_last() =~= Seq::new((n - 1) as nat, |i: int| 1nat));
    }
}

proof fn lemma_total_order(a: Seq<nat>, b: Seq<nat>)
    requires
        a.len() == b.len(),
        forall|i: int| 0 <= i < a.len() ==> #[trigger] a[i] <= b[i],
    ensures
        total_of(a) <= total_of(b),
        total_of(a) == total_of(b) ==> a == b,
    decreases a.len(),
{
    if a.len() > 0 {
        lemma_total_order(a.drop_last(), b.drop_last());
        assert(a.last() <= b.last()) by {
            assert(a[a.len() - 1] <= b[a.len() - 1]);
        }
        if total_of(a) == total_of(b) {
            assert(a =~= a.drop_last().push(a.last()));
            assert(b =~= b.drop_last().push(b.last()));
        }
    } else {
        assert(a =~= b);
    }
}

/// No word has wider pieces than the widest.
pub proof fn lemma_widest_is_widest(lens: Seq<nat>, amounts: Seq<nat>, n: int, i: int)
    requires
        0 <= i < n,
    ensures
        piece_width(lens[i], amounts[i]) <= piece_width(
            lens[widest(lens, amounts, n)],
            amounts[widest(lens, amounts, n)],
        ),
    decreases n,
{
    if i < n - 1 {
        lemma_widest_is_widest(lens, amounts, n - 1, i);
    }
}

/// A word of less than a thousand bytes has pieces of more than one byte if and only if it can
/// still be split.
proof fn lemma_width_tells(len: nat, amount: nat)
    requires
        len < 1000,
        amount >= 1,
    ensures
        piece_width(len, amount) > 1000 <==> amount < len,
{
    let width = piece_width(len, amount);
    vstd::arithmetic::div_mod::lemma_fundamental_div_mod(1000 * len as int, amount as int);
    vstd::arithmetic::div_mod::lemma_mod_division_less_than_divisor(
        1000 * len as int,
        amount as int,
    );
    let rest = (1000 * len) % amount;
    if amount < len {
        assert(width > 1000) by (nonlinear_arith)
            requires
                1000 * len == amount * width + rest,
                0 <= rest < amount,
                1 <= amount < len,
                len < 1000,
        ;
    } else {
        assert(width <= 1000) by (nonlinear_arith)
            requires
                1000 * len == amount * width + rest,
                0 <= rest < amount,
                1 <= amount,
                len <= amount,
        ;
    }
}

/// As long as there are not more pieces than the words can be split into, no word gets more than
/// it can be split into.
proof fn lemma_grown_within(lens: Seq<nat>, amounts: Seq<nat>, extra: nat)
    requires
        amounts.len() == lens.len(),
        words_short(lens),
        forall|i: int|
            0 <= i < amounts.len() ==> 1 <= #[trigger] amounts[i] <= most_pieces(lens)[i],
        total_of(amounts) + extra <= total_of(most_pieces(lens)),
    ensures
        forall|i: int|
            0 <= i < amounts.len() ==> #[trigger] grown(lens, amounts, extra)[i]
                <= most_pieces(lens)[i],
    decreases extra,
{
    if extra > 0 && lens.len() > 0 {
        let n = lens.len() as int;
        let w = widest(lens, amounts, n);
        lemma_widest_range(lens, amounts, n);
        assert(amounts != most_pieces(lens));
        assert(exists|i: int| 0 <= i < n && amounts[i] != most_pieces(lens)[i]) by {
            if forall|i: int| 0 <= i < n ==> amounts[i] == most_pieces(lens)[i] {
                assert(amounts =~= most_pieces(lens));
            }
        }
        let i = choose|i: int| 0 <= i < n && amounts[i] != most_pieces(lens)[i];
        assert(1 <= amounts[i] < lens[i]);
        assert(lens[i] < 1000 && lens[w] < 1000);
        lemma_width_tells(lens[i], amounts[i]);
        lemma_widest_is_widest(lens, amounts, n, i);
        assert(amounts[w] >= 1);
        lemma_width_tells(lens[w], amounts[w]);
        lemma_total_update(amounts, w);
        let more = amounts.update(w, amounts[w] + 1);
        lemma_grown_within(lens, more, (extra - 1) as nat);
        assert(grown(lens, amounts, extra) == grown(lens, more, (extra - 1) as nat));
    } else {
        assert(grown(lens, amounts, extra) == amounts);
    }
}

proof fn lemma_grown_twice(lens: Seq<nat>, amounts: Seq<nat>, first: nat, second: nat)
    requires
        amounts.len() == lens.len(),
    ensures
        grown(lens, amounts, first + second) == grown(lens, grown(lens, amounts, first), second),
    decreases first,
{
    if first > 0 && lens.len() > 0 {
        let w = widest(lens, amounts, lens.len() as int);
        lemma_widest_range(lens, amounts, lens.len() as int);
        lemma_grown_twice(lens, amounts.update(w, amounts[w] + 1), (first - 1) as nat, second);
        assert((first + second - 1) as nat == (first - 1) as nat + second);
    }
}

/// If words of less than a thousand bytes are to be split into `count` pieces, they are, as far as
/// they have so many.
proof fn lemma_split_count(words: Seq<Seq<char>>, count: int)
    requires
        count > words.len(),
        words_short(trimmed_lens(words)),
    ensures
        pieces_of(words, piece_amounts(words, count), words.len() as int).len() == if count
            <= total_of(most_pieces(trimmed_lens(words))) {
            count
        } else {
            total_of(most_pieces(trimmed_lens(words))) as int
        },
{
    let lens = trimmed_lens(words);
    let most = most_pieces(lens);
    let ones = Seq::new(words.len(), |i: int| 1nat);
    let extra = (count - words.len()) as nat;
    let amounts = piece_amounts(words, count);
    lemma_total_ones(words.len());
    lemma_grown(lens, ones, extra);
    assert forall|i: int| 0 <= i < amounts.len() implies #[trigger] amounts[i] >= 1 by {
        assert(ones[i] == 1);
    }
    lemma_pieces_of_len(words, amounts, words.len() as int);
    let counts = at_most(amounts, most);
    assert(counts.take(words.len() as int) =~= counts);
    if words.len() == 0 {
        assert(most =~= Seq::empty());
    } else if count <= total_of(most) {
        lemma_grown_within(lens, ones, extra);
        assert(counts =~= amounts) by {
            assert forall|i: int| 0 <= i < amounts.len() implies counts[i] == amounts[i] by {
                assert(ones[i] == 1);
                assert(amounts[i] == grown(lens, ones, extra)[i]);
            }
        }
    } else {
        lemma_total_order(ones, most);
        let first = (total_of(most) - words.len()) as nat;
        lemma_grown(lens, ones, first);
        lemma_grown_within(lens, ones, first);
        let full = grown(lens, ones, first);
        lemma_total_order(full, most);
        lemma_grown_twice(lens, ones, first, (extra - first) as nat);
        lemma_grown(lens, full, (extra - first) as nat);
        assert(counts =~= most) by {
            assert forall|i: int| 0 <= i < most.len() implies counts[i] == most[i] by {
                assert(full[i] <= grown(lens, full, (extra - first) as nat)[i]);
            }
        }
    }
}

/// A text is never split into more pieces than asked for. With at least that many words, or with
/// short words that have at least that many bytes between them before their trailing spaces, it is
/// split into exactly so many; with short words of fewer bytes, into as many as they allow.
pub proof fn lemma_even_split_count(text: Seq<char>, count: int, pieces: Seq<Seq<char>>)
    requires
        count >= 1,
        is_even_split(text, count, pieces),
    ensures
        pieces.len() <= count,
        words_of(text).len() >= count ==> pieces.len() == count,
        ({
            let lens = trimmed_lens(words_of(text));
            &&& words_short(lens) && count <= total_of(lens) ==> pieces.len() == count
            &&& words_short(lens) && count > 1 ==> pieces.len() == if count <= total_of(
                most_pieces(lens),
            ) {
                count
            } else {
                total_of(most_pieces(lens)) as int
            }
        }),
{
    let words = words_of(text);
    let lens = trimmed_lens(words);
    let most = most_pieces(lens);
    let ones = Seq::new(words.len(), |i: int| 1nat);
    lemma_total_ones(words.len());
    lemma_total_order(lens, most);
    lemma_total_order(ones, most);
    if count > 1 && count > words.len() {
        let amounts = piece_amounts(words, count);
        lemma_grown(lens, ones, (count - words.len()) as nat);
        assert forall|i: int| 0 <= i < amounts.len() implies #[trigger] amounts[i] >= 1 by {
            assert(ones[i] == 1);
        }
        lemma_pieces_of_len(words, amounts, words.len() as int);
        let counts = at_most(amounts, most);
        assert(counts.take(words.len() as int) =~= counts);
        lemma_total_order(counts, amounts);
        if words_short(lens) {
            lemma_split_count(words, count);
        }
    } else if count > 1 && words.len() > count {
        let cuts = choose|cuts: Seq<int>|
            {
                &&& #[trigger] is_best_layout(word_lens(words), count, cuts)
                &&& pieces == lines_of(words, cuts)
            };
        assert(cuts.len() == count + 1);
    }
}

} // verus!
