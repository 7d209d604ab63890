//! Laws of breaking boss names into pieces.
use vstd::prelude::*;
use vstd::utf8::encode_utf8;

use crate::bosses::words;
use crate::text::{byte_len, flat, trimmed_end, words_of};

verus! {

// --- Lines

proof fn lemma_run_is_text(list: Seq<Seq<char>>, start: int, end: int)
    requires
        0 <= start <= end <= list.len(),
    ensures
        words::run_len(words::word_lens(list), start, end) == byte_len(
            flat(list.subrange(start, end)),
        ),
    decreases end - start,
{
    let part = list.subrange(start, end);
    if start < end {
        lemma_run_is_text(list, start, end - 1);
        assert(part.drop_last() =~= list.subrange(start, end - 1));
        words::lemma_encode_concat(flat(part.drop_last()), part.last());
    } else {
        assert(part =~= Seq::empty());
        assert(encode_utf8(Seq::<char>::empty()).len() == 0);
    }
}

/// What a line costs is the square of how far its length in bytes is off the target, without the
/// space that ends a line other than the last.
pub proof fn lemma_line_cost(list: Seq<Seq<char>>, target: int, start: int, end: int)
    requires
        0 <= start < end <= list.len(),
    ensures
        ({
            let line = flat(list.subrange(start, end));
            let cost = words::line_cost(words::word_lens(list), target, start, end);
            let off = byte_len(line) - target;
            &&& end == list.len() ==> cost == off * off
            &&& end < list.len() ==> cost == (off - 1) * (off - 1)
            &&& end < list.len() && line.len() > 0 && line.last() == ' ' ==> cost == (byte_len(
                line.drop_last(),
            ) - target) * (byte_len(line.drop_last()) - target)
        }),
{
    lemma_run_is_text(list, start, end);
    let line = flat(list.subrange(start, end));
    if line.len() > 0 && line.last() == ' ' {
        words::lemma_encode_concat(line.drop_last(), seq![' ']);
        assert(line.drop_last() + seq![' '] =~= line);
        assert(seq![' '].drop_first() =~= Seq::empty());
        reveal_with_fuel(encode_utf8, 2);
        assert(encode_utf8(seq![' ']).len() == 1);
    }
}

/// The target is an even share of the text's length, rounded down.
pub proof fn lemma_target(list: Seq<Seq<char>>, lines: int)
    requires
        lines >= 1,
    ensures
        ({
            let target = words::target_len(words::word_lens(list), lines);
            lines * target <= byte_len(flat(list)) < lines * target + lines
        }),
{
    lemma_run_is_text(list, 0, list.len() as int);
    assert(list.subrange(0, list.len() as int) =~= list);
    let total = byte_len(flat(list)) as int;
    vstd::arithmetic::div_mod::lemma_fundamental_div_mod(total, lines);
    vstd::arithmetic::div_mod::lemma_mod_division_less_than_divisor(total, lines);
}

/// A layout costs what its lines cost together.
pub proof fn lemma_layout_cost(lens: Seq<nat>, target: int, cuts: Seq<int>, lines: int)
    requires
        lines >= 0,
    ensures
        words::layout_cost(lens, target, cuts, 0) == 0,
        words::layout_cost(lens, target, cuts, lines + 1) == words::layout_cost(
            lens,
            target,
            cuts,
            lines,
        ) + words::line_cost(lens, target, cuts[lines], cuts[lines + 1]),
{
}

/// The chosen layout has every word on one line and a word on every line, costs no more than any
/// other such layout, and against another that costs the same it cuts earlier at the last place
/// where they differ.
pub proof fn lemma_best_layout(lens: Seq<nat>, lines: int, cuts: Seq<int>, other: Seq<int>)
    requires
        lines >= 1,
        words::is_best_layout(lens, lines, cuts),
        other.len() == lines + 1,
        other[0] == 0,
        other[lines] == lens.len(),
        forall|i: int| 0 <= i < lines ==> #[trigger] other[i] < other[i + 1],
    ensures
        cuts.len() == lines + 1,
        cuts[0] == 0,
        cuts[lines] == lens.len(),
        forall|i: int| 0 <= i < lines ==> #[trigger] cuts[i] < cuts[i + 1],
        ({
            let target = words::target_len(lens, lines);
            let mine = words::layout_cost(lens, target, cuts, lines);
            let theirs = words::layout_cost(lens, target, other, lines);
            &&& mine <= theirs
            &&& mine == theirs && cuts != other ==> exists|m: int|
                0 < m < lines && #[trigger] cuts[m] < other[m] && forall|i: int|
                    m < i <= lines ==> cuts[i] == other[i]
        }),
{
    assert forall|i: int, j: int| 0 <= i < j <= lines implies other[i] < other[j] by {
        lemma_increasing(other, i, j);
    }
    assert(words::is_layout(other, lens.len() as int, lines));
    let target = words::target_len(lens, lines);
    if words::layout_cost(lens, target, cuts, lines) == words::layout_cost(
        lens,
        target,
        other,
        lines,
    ) && cuts != other {
        let m = choose|m: int|
            0 <= m < cuts.len() && #[trigger] cuts[m] < other[m] && (forall|i: int|
                m < i < cuts.len() ==> cuts[i] == other[i]);
        assert(cuts[m] < other[m]);
    }
}

proof fn lemma_increasing(s: Seq<int>, i: int, j: int)
    requires
        0 <= i < j < s.len(),
        forall|k: int| 0 <= k < s.len() - 1 ==> #[trigger] s[k] < s[k + 1],
    ensures
        s[i] < s[j],
    decreases j - i,
{
    assert(s[j - 1] < s[j - 1 + 1]);
    if i < j - 1 {
        lemma_increasing(s, i, j - 1);
    }
}

/// A line is its words, one after another.
pub proof fn lemma_lines_of(list: Seq<Seq<char>>, cuts: Seq<int>, j: int)
    requires
        0 <= j < cuts.len() - 1,
        0 <= cuts[j] < cuts[j + 1] <= list.len(),
    ensures
        words::lines_of(list, cuts).len() == cuts.len() - 1,
        words::lines_of(list, cuts)[j] == flat(list.subrange(cuts[j], cuts[j + 1])),
{
}

// --- Pieces

/// A piece starts at the byte nearest to its even share of the word, the later one of two as near.
pub proof fn lemma_piece_start_is_nearest(len: int, count: int, i: int)
    requires
        count >= 1,
        len >= 0,
        i >= 0,
    ensures
        -count < 2 * (count * words::piece_start(len, count, i) - len * i) <= count,
{
    let half = count / 2;
    let a = len * i + half;
    vstd::arithmetic::div_mod::lemma_fundamental_div_mod(a, count);
    vstd::arithmetic::div_mod::lemma_mod_division_less_than_divisor(a, count);
}

/// A word of something other than spaces is split into as many pieces as asked for, but not into
/// more than it has bytes; its pieces start at even shares of it. A word that is not to be split,
/// or is nothing but spaces, stays whole.
pub proof fn lemma_word_pieces(word: Seq<char>, count: int, i: int)
    requires
        words::can_split(word, count),
        0 <= i,
    ensures
        ({
            let pieces = words::word_pieces(word, count);
            let len = byte_len(trimmed_end(word)) as int;
            if count <= 1 || len == 0 {
                pieces == seq![word]
            } else {
                let n = if len < count {
                    len
                } else {
                    count
                };
                &&& pieces.len() == n
                &&& i < n ==> -n < 2 * (n * byte_len(flat(pieces.take(i))) - len * i) <= n
            }
        }),
{
    let len = byte_len(trimmed_end(word)) as int;
    if count > 1 && len != 0 {
        let n = words::piece_count(word, count);
        if i < n {
            words::lemma_pieces_prefix(word, count, i);
            lemma_piece_start_is_nearest(len, n, i);
            words::lemma_piece_cuts(word, count, i);
        }
    }
}

/// Further pieces go one by one to the word whose pieces are the widest, counted in thousandths of
/// a byte, and to the last of several such words.
pub proof fn lemma_growing(lens: Seq<nat>, amounts: Seq<nat>, extra: nat)
    requires
        lens.len() == amounts.len(),
        lens.len() > 0,
        forall|i: int| 0 <= i < amounts.len() ==> #[trigger] amounts[i] >= 1,
    ensures
        words::grown(lens, amounts, 0) == amounts,
        exists|w: int|
            0 <= w < lens.len() && words::grown(lens, amounts, extra + 1) == words::grown(
                lens,
                #[trigger] amounts.update(w, amounts[w] + 1),
                extra,
            ) && (forall|i: int|
                0 <= i < lens.len() ==> 1000 * #[trigger] lens[i] / amounts[i] <= 1000 * lens[w]
                    / amounts[w]) && (forall|i: int|
                w < i < lens.len() ==> 1000 * #[trigger] lens[i] / amounts[i] < 1000 * lens[w]
                    / amounts[w]),
{
    let n = lens.len() as int;
    let w = words::widest(lens, amounts, n);
    words::lemma_widest_range(lens, amounts, n);
    assert forall|i: int| 0 <= i < n implies 1000 * #[trigger] lens[i] / amounts[i] <= 1000
        * lens[w] / amounts[w] by {
        words::lemma_widest_is_widest(lens, amounts, n, i);
    }
    assert forall|i: int| w < i < n implies 1000 * #[trigger] lens[i] / amounts[i] < 1000
        * lens[w] / amounts[w] by {
        lemma_widest_is_last(lens, amounts, n, i);
    }
    assert(words::grown(lens, amounts, extra + 1) == words::grown(
        lens,
        amounts.update(w, amounts[w] + 1),
        extra,
    ));
}

proof fn lemma_widest_is_last(lens: Seq<nat>, amounts: Seq<nat>, n: int, i: int)
    requires
        n >= 1,
        words::widest(lens, amounts, n) < i < n,
    ensures
        words::piece_width(lens[i], amounts[i]) < words::piece_width(
            lens[words::widest(lens, amounts, n)],
            amounts[words::widest(lens, amounts, n)],
        ),
    decreases n,
{
    if i < n - 1 {
        lemma_widest_is_last(lens, amounts, n - 1, i);
    }
}

/// How many pieces words are split into begins with one for each, and grows by what is missing, by
/// their lengths without trailing spaces.
pub proof fn lemma_piece_amounts(list: Seq<Seq<char>>, count: int)
    requires
        count >= list.len(),
    ensures
        exists|lens: Seq<nat>, ones: Seq<nat>|
            #[trigger] lens.len() == list.len() && #[trigger] ones.len() == list.len() && (forall|
                i: int,
            |
                0 <= i < lens.len() ==> #[trigger] lens[i] == byte_len(trimmed_end(list[i]))) && (
            forall|i: int| 0 <= i < ones.len() ==> #[trigger] ones[i] == 1)
                && words::piece_amounts(list, count) == words::grown(
                lens,
                ones,
                (count - list.len()) as nat,
            ),
{
    let lens = words::trimmed_lens(list);
    let ones = Seq::new(list.len(), |i: int| 1nat);
    assert(lens.len() == list.len() && ones.len() == list.len());
}

/// The pieces of words are those of each, in order.
pub proof fn lemma_pieces_of(list: Seq<Seq<char>>, amounts: Seq<nat>, n: int)
    requires
        0 <= n,
    ensures
        words::pieces_of(list, amounts, 0).len() == 0,
        words::pieces_of(list, amounts, n + 1) == words::pieces_of(list, amounts, n)
            + words::word_pieces(list[n], amounts[n] as int),
{
}

/// How a text is split. One piece is the whole text. With as many words as pieces, each is one.
/// With more words, every piece is some words of a best layout; with fewer, every word is split
/// into its own number of pieces.
pub proof fn lemma_even_split(text: Seq<char>, count: int, pieces: Seq<Seq<char>>)
    requires
        words::is_even_split(text, count, pieces),
    ensures
        ({
            let list = words_of(text);
            &&& count <= 1 ==> pieces.len() == 1 && pieces[0] == text
            &&& count > 1 && count == list.len() ==> pieces == list
            &&& count > 1 && count < list.len() ==> exists|cuts: Seq<int>|
                #[trigger] words::is_best_layout(words::word_lens(list), count, cuts) && pieces
                    == words::lines_of(list, cuts)
            &&& count > 1 && count > list.len() ==> pieces == words::pieces_of(
                list,
                words::piece_amounts(list, count),
                list.len() as int,
            )
        }),
{
}

} // verus!
