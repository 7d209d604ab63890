//! Text building blocks: decimal and hexadecimal numbers, joining, replacing and splitting.
use vstd::prelude::*;

verus! {

/// `String::push` appends the given character to the end of the string.
pub assume_specification[ String::push ](s: &mut String, ch: char)
    ensures
        final(s)@ == old(s)@.push(ch),
;

/// The decimal or lower-case hexadecimal digit with value `d`.
pub open spec fn digit_char(d: nat) -> char {
    if d == 0 {
        '0'
    } else if d == 1 {
        '1'
    } else if d == 2 {
        '2'
    } else if d == 3 {
        '3'
    } else if d == 4 {
        '4'
    } else if d == 5 {
        '5'
    } else if d == 6 {
        '6'
    } else if d == 7 {
        '7'
    } else if d == 8 {
        '8'
    } else if d == 9 {
        '9'
    } else if d == 10 {
        'a'
    } else if d == 11 {
        'b'
    } else if d == 12 {
        'c'
    } else if d == 13 {
        'd'
    } else if d == 14 {
        'e'
    } else {
        'f'
    }
}

fn digit(d: u64) -> (c: char)
    requires
        d < 16,
    ensures
        c == digit_char(d as nat),
{
    match d {
        0 => '0',
        1 => '1',
        2 => '2',
        3 => '3',
        4 => '4',
        5 => '5',
        6 => '6',
        7 => '7',
        8 => '8',
        9 => '9',
        10 => 'a',
        11 => 'b',
        12 => 'c',
        13 => 'd',
        14 => 'e',
        _ => 'f',
    }
}

/// `n` in decimal, without leading zeros.
pub open spec fn decimal(n: nat) -> Seq<char>
    decreases n,
{
    if n < 10 {
        seq![digit_char(n)]
    } else {
        decimal(n / 10).push(digit_char(n % 10))
    }
}

/// `i` in decimal, with a leading minus sign if it is negative.
pub open spec fn signed_decimal(i: int) -> Seq<char> {
    if i < 0 {
        seq!['-'] + decimal((-i) as nat)
    } else {
        decimal(i as nat)
    }
}

/// `n` in decimal, padded with a zero to at least two digits.
pub open spec fn two_digits(n: nat) -> Seq<char> {
    if n < 10 {
        seq!['0'] + decimal(n)
    } else {
        decimal(n)
    }
}

/// The four hexadecimal digits of `n`, most significant first.
pub open spec fn four_hex(n: nat) -> Seq<char> {
    seq![
        digit_char(n / 4096 % 16),
        digit_char(n / 256 % 16),
        digit_char(n / 16 % 16),
        digit_char(n % 16),
    ]
}

pub fn push_decimal(out: &mut String, n: u64)
    ensures
        final(out)@ == old(out)@ + decimal(n as nat),
    decreases n,
{
    if n >= 10 {
        push_decimal(out, n / 10);
    }
    out.push(digit(n % 10));
    assert(out@ =~= old(out)@ + decimal(n as nat));
}

pub fn push_signed_decimal(out: &mut String, i: i64)
    ensures
        final(out)@ == old(out)@ + signed_decimal(i as int),
{
    if i < 0 {
        out.push('-');
        let magnitude: u64 = if i == i64::MIN {
            0x8000_0000_0000_0000
        } else {
            (-i) as u64
        };
        push_decimal(out, magnitude);
    } else {
        push_decimal(out, i as u64);
    }
    assert(out@ =~= old(out)@ + signed_decimal(i as int));
}

pub fn push_two_digits(out: &mut String, n: u64)
    ensures
        final(out)@ == old(out)@ + two_digits(n as nat),
{
    if n < 10 {
        out.push('0');
    }
    push_decimal(out, n);
    assert(out@ =~= old(out)@ + two_digits(n as nat));
}

pub fn push_four_hex(out: &mut String, n: u64)
    ensures
        final(out)@ == old(out)@ + four_hex(n as nat),
{
    out.push(digit(n / 4096 % 16));
    out.push(digit(n / 256 % 16));
    out.push(digit(n / 16 % 16));
    out.push(digit(n % 16));
    assert(out@ =~= old(out)@ + four_hex(n as nat));
}

/// Whether two texts are the same.
pub fn same_text(a: &str, b: &str) -> (r: bool)
    ensures
        r == (a@ == b@),
{
    a.to_owned() == b.to_owned()
}

/// A copy of an optional text.
pub fn clone_text(text: &Option<String>) -> (r: Option<String>)
    ensures
        r == *text,
{
    match text {
        Some(t) => Some(t.clone()),
        None => None,
    }
}

/// The characters of a text.
pub fn chars_of(s: &str) -> (r: Vec<char>)
    ensures
        r@ == s@,
{
    let mut out: Vec<char> = Vec::new();
    for c in it: s.chars()
        invariant
            it.seq() == s@,
            out@ == it.seq().take(it.index()),
    {
        out.push(c);
    }
    out
}

/// Whether `pat` stands in `s` at position `at`.
pub open spec fn occurs_at(s: Seq<char>, pat: Seq<char>, at: int) -> bool {
    0 <= at && at + pat.len() <= s.len() && s.subrange(at, at + pat.len()) == pat
}

/// `s` with every occurrence of `pat`, found from left to right without overlap, replaced by
/// `with`.
pub open spec fn replaced(s: Seq<char>, pat: Seq<char>, with: Seq<char>) -> Seq<char>
    decreases s.len(),
{
    if pat.len() == 0 || s.len() < pat.len() {
        s
    } else if occurs_at(s, pat, 0) {
        with + replaced(s.skip(pat.len() as int), pat, with)
    } else {
        seq![s[0]] + replaced(s.skip(1), pat, with)
    }
}

/// Whether `pat` stands in `s` at position `at`.
fn matches_at(s: &Vec<char>, pat: &Vec<char>, at: usize) -> (r: bool)
    requires
        at <= s@.len(),
    ensures
        r == occurs_at(s@, pat@, at as int),
{
    if pat.len() > s.len() - at {
        return false;
    }
    let mut i: usize = 0;
    while i < pat.len()
        invariant
            at + pat.len() <= s.len(),
            i <= pat@.len(),
            forall|j: int| 0 <= j < i ==> s@[at + j] == pat@[j],
        decreases pat@.len() - i,
    {
        if s[at + i] != pat[i] {
            assert(s@.subrange(at as int, at + pat@.len())[i as int] != pat@[i as int]);
            return false;
        }
        i = i + 1;
    }
    assert(s@.subrange(at as int, at + pat@.len()) =~= pat@);
    true
}

/// Replaces every occurrence of `pat` in `text` by `with`.
pub fn replace_all(text: &str, pat: &str, with: &str) -> (r: String)
    requires
        pat@.len() > 0,
    ensures
        r@ == replaced(text@, pat@, with@),
{
    let s = chars_of(text);
    let p = chars_of(pat);
    let mut out = String::new();
    let mut i: usize = 0;
    assert(s@.skip(0) =~= s@);
    while i < s.len()
        invariant
            s@ == text@,
            p@ == pat@,
            p@.len() > 0,
            i <= s@.len(),
            out@ + replaced(s@.skip(i as int), pat@, with@) == replaced(text@, pat@, with@),
        decreases s@.len() - i,
    {
        let ghost rest = s@.skip(i as int);
        let ghost before = out@;
        assert(forall|k: int|
            0 <= k && k + p@.len() <= rest.len() ==> #[trigger] rest.subrange(k, k + p@.len())
                =~= s@.subrange(i + k, i + k + p@.len()));
        if matches_at(&s, &p, i) {
            assert(rest.subrange(0, p@.len() as int) =~= s@.subrange(i as int, i + p@.len()));
            assert(occurs_at(rest, p@, 0));
            out.append(with);
            i = i + p.len();
            assert(rest.skip(p@.len() as int) =~= s@.skip(i as int));
            assert(before + replaced(rest, pat@, with@) =~= out@ + replaced(
                s@.skip(i as int),
                pat@,
                with@,
            ));
        } else {
            out.push(s[i]);
            i = i + 1;
            assert(rest.skip(1) =~= s@.skip(i as int));
            proof {
                if rest.len() < p@.len() {
                    assert(out@ + s@.skip(i as int) =~= before + rest);
                } else {
                    assert(rest.subrange(0, p@.len() as int) =~= s@.subrange(
                        i - 1,
                        i - 1 + p@.len(),
                    ));
                    assert(!occurs_at(rest, p@, 0));
                    assert(before + replaced(rest, pat@, with@) =~= out@ + replaced(
                        s@.skip(i as int),
                        pat@,
                        with@,
                    ));
                }
            }
        }
    }
    assert(s@.skip(i as int) =~= Seq::<char>::empty());
    assert(out@ + Seq::<char>::empty() =~= out@);
    out
}

/// Whether `pat` stands anywhere in `text`.
pub fn contains_text(text: &str, pat: &str) -> (r: bool)
    ensures
        r == exists|at: int| occurs_at(text@, pat@, at),
{
    let s = chars_of(text);
    let p = chars_of(pat);
    let mut i: usize = 0;
    while i <= s.len()
        invariant
            s@ == text@,
            p@ == pat@,
            i <= s@.len() + 1,
            forall|at: int| 0 <= at < i ==> !occurs_at(s@, p@, at),
        decreases s@.len() + 1 - i,
    {
        if matches_at(&s, &p, i) {
            return true;
        }
        if i == s.len() {
            return false;
        }
        i = i + 1;
    }
    false
}

/// Whether `text` begins with `prefix`.
pub fn begins_with(text: &str, prefix: &str) -> (r: bool)
    ensures
        r == occurs_at(text@, prefix@, 0),
{
    matches_at(&chars_of(text), &chars_of(prefix), 0)
}

/// The contents of a list of texts.
pub open spec fn texts(list: Seq<String>) -> Seq<Seq<char>> {
    list.map_values(|s: String| s@)
}

/// The texts of `list` one after another.
pub open spec fn flat(list: Seq<Seq<char>>) -> Seq<char>
    decreases list.len(),
{
    if list.len() == 0 {
        Seq::empty()
    } else {
        flat(list.drop_last()) + list.last()
    }
}

/// The texts of `list` with `sep` between each two neighbours.
pub open spec fn joined(list: Seq<Seq<char>>, sep: Seq<char>) -> Seq<char>
    decreases list.len(),
{
    if list.len() == 0 {
        Seq::empty()
    } else if list.len() == 1 {
        list[0]
    } else {
        joined(list.drop_last(), sep) + sep + list.last()
    }
}

/// Joins the texts of `list` with `sep`.
pub fn join(list: &Vec<String>, sep: &str) -> (r: String)
    ensures
        r@ == joined(texts(list@), sep@),
{
    let mut out = String::new();
    let mut i: usize = 0;
    while i < list.len()
        invariant
            i <= list@.len(),
            out@ == joined(texts(list@).take(i as int), sep@),
        decreases list@.len() - i,
    {
        if i > 0 {
            out.append(sep);
        }
        out.append(list[i].as_str());
        assert(texts(list@).take(i + 1).drop_last() =~= texts(list@).take(i as int));
        i = i + 1;
    }
    assert(texts(list@).take(i as int) =~= texts(list@));
    out
}

/// Concatenates the texts of `list` from `start` up to, not including, `end`.
pub fn concat_range(list: &Vec<String>, start: usize, end: usize) -> (r: String)
    requires
        start <= end <= list@.len(),
    ensures
        r@ == flat(texts(list@).subrange(start as int, end as int)),
{
    let mut out = String::new();
    let mut i: usize = start;
    while i < end
        invariant
            start <= i <= end <= list@.len(),
            out@ == flat(texts(list@).subrange(start as int, i as int)),
        decreases end - i,
    {
        out.append(list[i].as_str());
        assert(texts(list@).subrange(start as int, i + 1).drop_last() =~= texts(list@).subrange(
            start as int,
            i as int,
        ));
        i = i + 1;
    }
    out
}

/// Flattening a list in two parts.
pub proof fn lemma_flat_concat(a: Seq<Seq<char>>, b: Seq<Seq<char>>)
    ensures
        flat(a + b) == flat(a) + flat(b),
    decreases b.len(),
{
    if b.len() == 0 {
        assert(a + b =~= a);
        assert(flat(a) + flat(b) =~= flat(a));
    } else {
        assert((a + b).drop_last() =~= a + b.drop_last());
        lemma_flat_concat(a, b.drop_last());
        assert(flat(a + b) =~= flat(a) + flat(b));
    }
}

/// The number of characters up to and including the first space, or all of them.
pub open spec fn first_word_len(s: Seq<char>) -> nat
    decreases s.len(),
{
    if s.len() == 0 {
        0
    } else if s[0] == ' ' {
        1
    } else {
        1 + first_word_len(s.skip(1))
    }
}

/// The words of a text, each with the space that ends it.
pub open spec fn words_of(s: Seq<char>) -> Seq<Seq<char>>
    decreases s.len(),
{
    if s.len() == 0 || first_word_len(s) == 0 || first_word_len(s) > s.len() {
        Seq::empty()
    } else {
        seq![s.take(first_word_len(s) as int)] + words_of(s.skip(first_word_len(s) as int))
    }
}

proof fn lemma_first_word_len(s: Seq<char>, n: int)
    requires
        0 <= n < s.len(),
        forall|i: int| 0 <= i < n ==> s[i] != ' ',
        n == s.len() - 1 || s[n] == ' ',
    ensures
        first_word_len(s) == n + 1,
    decreases s.len(),
{
    if n > 0 {
        let t = s.skip(1);
        assert forall|i: int| 0 <= i < n - 1 implies t[i] != ' ' by {
            assert(t[i] == s[i + 1]);
        }
        lemma_first_word_len(t, n - 1);
    } else if s[0] != ' ' {
        reveal_with_fuel(first_word_len, 2);
    }
}

proof fn lemma_first_word_range(s: Seq<char>)
    requires
        s.len() > 0,
    ensures
        1 <= first_word_len(s) <= s.len(),
    decreases s.len(),
{
    reveal_with_fuel(first_word_len, 2);
    if s[0] != ' ' && s.len() > 1 {
        lemma_first_word_range(s.skip(1));
    }
}

/// The words of a text, put together again, are the text; none of them is empty.
pub proof fn lemma_words_of(s: Seq<char>)
    ensures
        flat(words_of(s)) == s,
        forall|i: int| 0 <= i < words_of(s).len() ==> #[trigger] words_of(s)[i].len() > 0,
    decreases s.len(),
{
    if s.len() > 0 {
        lemma_first_word_range(s);
        let n = first_word_len(s) as int;
        let head = seq![s.take(n)];
        lemma_words_of(s.skip(n));
        lemma_flat_concat(head, words_of(s.skip(n)));
        reveal_with_fuel(flat, 2);
        assert(flat(head) =~= s.take(n));
        assert(s.take(n) + s.skip(n) =~= s);
    }
}

/// Splits a text after each space.
pub fn split_words(text: &str) -> (r: Vec<String>)
    ensures
        texts(r@) == words_of(text@),
{
    let s = chars_of(text);
    let mut out: Vec<String> = Vec::new();
    let mut word = String::new();
    let mut start: usize = 0;
    let mut i: usize = 0;
    assert(s@.skip(0) =~= s@);
    while i < s.len()
        invariant
            s@ == text@,
            start <= i <= s@.len(),
            i == s@.len() ==> start == i,
            word@ == s@.subrange(start as int, i as int),
            forall|j: int| start <= j < i ==> s@[j] != ' ',
            texts(out@) + words_of(s@.skip(start as int)) == words_of(text@),
        decreases s@.len() - i,
    {
        word.push(s[i]);
        assert(word@ =~= s@.subrange(start as int, i + 1));
        if s[i] == ' ' || i + 1 == s.len() {
            let ghost rest = s@.skip(start as int);
            let ghost before = texts(out@);
            proof {
                assert forall|k: int| 0 <= k < i - start implies rest[k] != ' ' by {
                    assert(rest[k] == s@[start + k]);
                }
                lemma_first_word_len(rest, i - start);
                assert(rest.take(i - start + 1) =~= word@);
                assert(rest.skip(i - start + 1) =~= s@.skip(i + 1));
            }
            let ghost done = word@;
            out.push(word);
            word = String::new();
            start = i + 1;
            assert(texts(out@) =~= before.push(done));
            assert(before + words_of(rest) =~= texts(out@) + words_of(s@.skip(start as int)));
        }
        i = i + 1;
        assert(word@ =~= s@.subrange(start as int, i as int));
    }
    assert(s@.skip(start as int) =~= Seq::<char>::empty());
    assert(texts(out@) + Seq::<Seq<char>>::empty() =~= texts(out@));
    out
}

/// `s` without the spaces at its end.
pub open spec fn trimmed_end(s: Seq<char>) -> Seq<char>
    decreases s.len(),
{
    if s.len() > 0 && s.last() == ' ' {
        trimmed_end(s.drop_last())
    } else {
        s
    }
}

/// Cuts the spaces off the end of a text.
pub fn trim_end_spaces(text: &str) -> (r: String)
    ensures
        r@ == trimmed_end(text@),
{
    let s = chars_of(text);
    let mut end: usize = s.len();
    assert(s@.take(end as int) =~= s@);
    while end > 0 && s[end - 1] == ' '
        invariant
            s@ == text@,
            end <= s@.len(),
            trimmed_end(s@.take(end as int)) == trimmed_end(s@),
        decreases end,
    {
        assert(s@.take(end as int).drop_last() =~= s@.take(end - 1));
        end = end - 1;
    }
    text.substring_char(0, end).to_owned()
}

/// The length of a text in bytes.
pub open spec fn byte_len(s: Seq<char>) -> nat {
    vstd::utf8::encode_utf8(s).len()
}

/// The length of a text in bytes.
pub fn text_len(text: &str) -> (r: usize)
    ensures
        r == byte_len(text@),
{
    text.as_bytes().len()
}

/// The position of the first `key` in a list of texts, or the list's length where it has none.
pub open spec fn position_of(list: Seq<Seq<char>>, key: Seq<char>) -> int
    decreases list.len(),
{
    if list.len() == 0 {
        0
    } else {
        let before = position_of(list.drop_last(), key);
        if before < list.len() - 1 || list.last() == key {
            before
        } else {
            list.len() as int
        }
    }
}

/// A text's position is where it is first found.
pub proof fn lemma_position_of(list: Seq<Seq<char>>, key: Seq<char>)
    ensures
        0 <= position_of(list, key) <= list.len(),
        position_of(list, key) < list.len() ==> list[position_of(list, key)] == key,
        forall|i: int| 0 <= i < position_of(list, key) ==> #[trigger] list[i] != key,
        list.contains(key) <==> position_of(list, key) < list.len(),
    decreases list.len(),
{
    if list.len() > 0 {
        let rest = list.drop_last();
        lemma_position_of(rest, key);
        assert forall|i: int| 0 <= i < position_of(list, key) implies #[trigger] list[i] != key by {
            if i < rest.len() {
                assert(rest[i] == list[i]);
            }
        }
        if position_of(rest, key) < rest.len() {
            assert(rest[position_of(rest, key)] == list[position_of(rest, key)]);
        }
    }
}

/// The only position with the key and without the key before it is the key's position.
pub proof fn lemma_position_is(list: Seq<Seq<char>>, key: Seq<char>, at: int)
    requires
        0 <= at <= list.len(),
        at < list.len() ==> list[at] == key,
        forall|i: int| 0 <= i < at ==> #[trigger] list[i] != key,
    ensures
        position_of(list, key) == at,
{
    lemma_position_of(list, key);
    let p = position_of(list, key);
    if p < at {
        assert(list[p] != key);
    } else if at < p {
        assert(list[at] != key);
    }
}

/// The value of a digit: that of a decimal digit, or ten and more for the letters from `a` on.
pub open spec fn digit_value(c: char) -> int {
    if '0' <= c <= '9' {
        c as int - '0' as int
    } else {
        c as int - 'a' as int + 10
    }
}

/// The number that digits write in a base.
pub open spec fn number_of(digits: Seq<char>, base: int) -> int
    decreases digits.len(),
{
    if digits.len() == 0 {
        0
    } else {
        number_of(digits.drop_last(), base) * base + digit_value(digits.last())
    }
}

/// A number in decimal is made of decimal digits, has no leading zero, and reads as the number.
pub proof fn lemma_decimal(n: nat)
    ensures
        decimal(n).len() > 0,
        number_of(decimal(n), 10) == n,
        forall|i: int| 0 <= i < decimal(n).len() ==> '0' <= #[trigger] decimal(n)[i] <= '9',
        decimal(n).len() > 1 ==> decimal(n)[0] != '0',
        n > 0 ==> decimal(n)[0] != '0',
    decreases n,
{
    if n < 10 {
        reveal_with_fuel(number_of, 2);
        assert(decimal(n).drop_last() =~= Seq::empty());
    } else {
        let rest = decimal(n / 10);
        lemma_decimal(n / 10);
        assert(decimal(n).drop_last() =~= rest);
        assert forall|i: int| 0 <= i < decimal(n).len() implies '0' <= #[trigger] decimal(n)[i]
            <= '9' by {
            if i < rest.len() {
                assert(decimal(n)[i] == rest[i]);
            }
        }
        assert(decimal(n)[0] == rest[0]);
    }
}

/// A negative number is written as a minus sign and its magnitude.
pub proof fn lemma_signed_decimal(i: int)
    ensures
        i >= 0 ==> signed_decimal(i) == decimal(i as nat),
        i < 0 ==> signed_decimal(i)[0] == '-' && signed_decimal(i).skip(1) == decimal((-i) as nat),
{
    if i < 0 {
        assert(signed_decimal(i).skip(1) =~= decimal((-i) as nat));
    }
}

/// A number in at least two digits reads as the number; below a hundred it has exactly two.
pub proof fn lemma_two_digits(n: nat)
    ensures
        number_of(two_digits(n), 10) == n,
        two_digits(n).len() >= 2,
        n < 100 ==> two_digits(n).len() == 2,
        n >= 10 ==> two_digits(n) == decimal(n),
        forall|i: int| 0 <= i < two_digits(n).len() ==> '0' <= #[trigger] two_digits(n)[i] <= '9',
{
    lemma_decimal(n);
    reveal_with_fuel(decimal, 3);
    if n < 10 {
        reveal_with_fuel(number_of, 3);
        assert(two_digits(n).drop_last() =~= seq!['0']);
        assert(seq!['0'].drop_last() =~= Seq::empty());
    }
}

proof fn lemma_digit_value(d: nat)
    requires
        d < 16,
    ensures
        digit_value(digit_char(d)) == d,
        '0' <= digit_char(d) <= '9' || 'a' <= digit_char(d) <= 'f',
{
}

/// Four hexadecimal digits read as the number, where it has no more.
pub proof fn lemma_four_hex(n: nat)
    requires
        n < 0x10000,
    ensures
        four_hex(n).len() == 4,
        number_of(four_hex(n), 16) == n,
        forall|i: int|
            0 <= i < 4 ==> ('0' <= #[trigger] four_hex(n)[i] <= '9' || 'a' <= four_hex(n)[i]
                <= 'f'),
{
    let a = n / 4096 % 16;
    let b = n / 256 % 16;
    let c = n / 16 % 16;
    let d = n % 16;
    lemma_digit_value(a);
    lemma_digit_value(b);
    lemma_digit_value(c);
    lemma_digit_value(d);
    let one = seq![digit_char(a)];
    let two = one.push(digit_char(b));
    let three = two.push(digit_char(c));
    let four = three.push(digit_char(d));
    assert(four_hex(n) =~= four);
    assert(one.drop_last() =~= Seq::empty());
    assert(two.drop_last() =~= one);
    assert(three.drop_last() =~= two);
    assert(four.drop_last() =~= three);
    assert(number_of(Seq::empty(), 16) == 0);
    assert(number_of(one, 16) == a);
    assert(number_of(two, 16) == a * 16 + b);
    assert(number_of(three, 16) == (a * 16 + b) * 16 + c);
    assert(number_of(four, 16) == ((a * 16 + b) * 16 + c) * 16 + d);
}

/// A pattern stands at a position if and only if all of its characters do.
pub proof fn lemma_occurs_at(s: Seq<char>, pat: Seq<char>, at: int)
    ensures
        occurs_at(s, pat, at) <==> 0 <= at && at + pat.len() <= s.len() && forall|i: int|
            0 <= i < pat.len() ==> s[at + i] == #[trigger] pat[i],
{
    if 0 <= at && at + pat.len() <= s.len() {
        let part = s.subrange(at, at + pat.len());
        if occurs_at(s, pat, at) {
            assert forall|i: int| 0 <= i < pat.len() implies s[at + i] == #[trigger] pat[i] by {
                assert(part[i] == s[at + i]);
            }
        }
        if forall|i: int| 0 <= i < pat.len() ==> s[at + i] == #[trigger] pat[i] {
            assert(part =~= pat);
        }
    }
}

/// A text without the pattern stays as it is.
pub proof fn lemma_nothing_replaced(s: Seq<char>, pat: Seq<char>, with: Seq<char>)
    requires
        pat.len() > 0,
        forall|at: int| !#[trigger] occurs_at(s, pat, at),
    ensures
        replaced(s, pat, with) == s,
    decreases s.len(),
{
    if s.len() >= pat.len() {
        let rest = s.skip(1);
        assert(!occurs_at(s, pat, 0));
        assert forall|at: int| !#[trigger] occurs_at(rest, pat, at) by {
            if occurs_at(rest, pat, at) {
                assert(s.subrange(at + 1, at + 1 + pat.len()) =~= rest.subrange(
                    at,
                    at + pat.len(),
                ));
                assert(occurs_at(s, pat, at + 1));
            }
        }
        lemma_nothing_replaced(rest, pat, with);
        assert(seq![s[0]] + rest =~= s);
    }
}

/// The first place of the pattern in a text is replaced, what stands before it stays, and the
/// rest is treated alike.
pub proof fn lemma_first_replaced(s: Seq<char>, pat: Seq<char>, with: Seq<char>, at: int)
    requires
        pat.len() > 0,
        occurs_at(s, pat, at),
        forall|i: int| 0 <= i < at ==> !#[trigger] occurs_at(s, pat, i),
    ensures
        replaced(s, pat, with) == s.take(at) + with + replaced(s.skip(at + pat.len()), pat, with),
    decreases at,
{
    if at == 0 {
        assert(s.take(0) + with =~= with);
    } else {
        let rest = s.skip(1);
        assert(!occurs_at(s, pat, 0));
        assert(rest.subrange(at - 1, at - 1 + pat.len()) =~= s.subrange(at, at + pat.len()));
        assert forall|i: int| 0 <= i < at - 1 implies !#[trigger] occurs_at(rest, pat, i) by {
            assert(rest.subrange(i, i + pat.len()) =~= s.subrange(i + 1, i + 1 + pat.len()));
            assert(!occurs_at(s, pat, i + 1));
        }
        lemma_first_replaced(rest, pat, with, at - 1);
        assert(rest.skip(at - 1 + pat.len()) =~= s.skip(at + pat.len()));
        assert(seq![s[0]] + rest.take(at - 1) =~= s.take(at));
        assert(seq![s[0]] + (rest.take(at - 1) + with + replaced(s.skip(at + pat.len()), pat, with))
            =~= s.take(at) + with + replaced(s.skip(at + pat.len()), pat, with));
    }
}

/// Joining puts the separator between neighbours and nowhere else.
pub proof fn lemma_joined(list: Seq<Seq<char>>, sep: Seq<char>, next: Seq<char>)
    ensures
        joined(Seq::empty(), sep) == Seq::<char>::empty(),
        joined(list.push(next), sep) == if list.len() == 0 {
            next
        } else {
            joined(list, sep) + sep + next
        },
{
    assert(list.push(next).drop_last() =~= list);
}

/// A list of one text is that text, put together.
pub proof fn lemma_flat_single(text: Seq<char>)
    ensures
        flat(seq![text]) == text,
{
    reveal_with_fuel(flat, 2);
    assert(seq![text].drop_last() =~= Seq::empty());
    assert(Seq::<char>::empty() + text =~= text);
}

/// Words are cut after each space and nowhere else: a word has a space at its end only, and every
/// word but the last has one.
pub proof fn lemma_word_ends(s: Seq<char>)
    ensures
        forall|i: int, j: int|
            0 <= i < words_of(s).len() && 0 <= j < words_of(s)[i].len() - 1
                ==> #[trigger] words_of(s)[i][j] != ' ',
        forall|i: int|
            0 <= i < words_of(s).len() - 1 ==> (#[trigger] words_of(s)[i]).last() == ' ',
    decreases s.len(),
{
    if s.len() > 0 {
        lemma_first_word_range(s);
        lemma_first_word_ends(s);
        let n = first_word_len(s) as int;
        let rest = s.skip(n);
        lemma_word_ends(rest);
        let words = words_of(s);
        assert forall|i: int, j: int|
            0 <= i < words.len() && 0 <= j < words[i].len() - 1 implies #[trigger] words[i][j]
            != ' ' by {
            if i > 0 {
                assert(words[i] == words_of(rest)[i - 1]);
            }
        }
        assert forall|i: int| 0 <= i < words.len() - 1 implies (#[trigger] words[i]).last()
            == ' ' by {
            if i > 0 {
                assert(words[i] == words_of(rest)[i - 1]);
            } else {
                assert(words =~= seq![s.take(n)] + words_of(rest));
                assert(rest.len() > 0);
            }
        }
    }
}

proof fn lemma_first_word_ends(s: Seq<char>)
    requires
        s.len() > 0,
    ensures
        1 <= first_word_len(s) <= s.len(),
        forall|j: int| 0 <= j < first_word_len(s) - 1 ==> #[trigger] s[j] != ' ',
        first_word_len(s) < s.len() ==> s[first_word_len(s) - 1] == ' ',
    decreases s.len(),
{
    lemma_first_word_range(s);
    reveal_with_fuel(first_word_len, 2);
    if s[0] != ' ' && s.len() > 1 {
        let t = s.skip(1);
        lemma_first_word_ends(t);
        assert forall|j: int| 0 <= j < first_word_len(s) - 1 implies #[trigger] s[j] != ' ' by {
            if j > 0 {
                assert(t[j - 1] == s[j]);
            }
        }
    }
}

/// What is cut off the end of a text is all of its last spaces and nothing else.
pub proof fn lemma_trimmed_end(s: Seq<char>)
    ensures
        trimmed_end(s).len() <= s.len(),
        trimmed_end(s) == s.take(trimmed_end(s).len() as int),
        trimmed_end(s).len() > 0 ==> trimmed_end(s).last() != ' ',
        forall|i: int| trimmed_end(s).len() <= i < s.len() ==> #[trigger] s[i] == ' ',
    decreases s.len(),
{
    if s.len() > 0 && s.last() == ' ' {
        let rest = s.drop_last();
        lemma_trimmed_end(rest);
        assert(s.take(trimmed_end(s).len() as int) =~= rest.take(trimmed_end(s).len() as int));
        assert forall|i: int| trimmed_end(s).len() <= i < s.len() implies #[trigger] s[i] == ' ' by {
            if i < rest.len() {
                assert(rest[i] == s[i]);
            }
        }
    } else {
        assert(s.take(s.len() as int) =~= s);
    }
}

} // verus!
