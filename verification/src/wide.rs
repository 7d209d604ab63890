//! Wide text: sequences of UTF-16 code units, the game's own form of text.
use vstd::prelude::*;

verus! {

/// The UTF-16 code units of one character.
pub open spec fn char_units(c: char) -> Seq<u16> {
    let n = c as int;
    if n < 0x10000 {
        seq![n as u16]
    } else {
        seq![(0xD800 + (n - 0x10000) / 0x400) as u16, (0xDC00 + (n - 0x10000) % 0x400) as u16]
    }
}

/// The UTF-16 code units of a text.
pub open spec fn wide(s: Seq<char>) -> Seq<u16>
    decreases s.len(),
{
    if s.len() == 0 {
        seq![]
    } else {
        wide(s.drop_last()) + char_units(s.last())
    }
}

proof fn lemma_char_range(c: char)
    ensures
        0 <= (c as int) <= 0x10FFFF,
        !(0xD800 <= (c as int) && (c as int) < 0xE000),
{
}

/// Two texts with the same code units are the same text.
pub proof fn lemma_wide_injective(a: Seq<char>, b: Seq<char>)
    requires
        wide(a) == wide(b),
    ensures
        a == b,
    decreases a.len(),
{
    let w = wide(a);
    if a.len() == 0 {
        if b.len() > 0 {
            assert(w.last() == char_units(b.last()).last());
        }
        assert(a =~= b);
    } else if b.len() == 0 {
        assert(w.last() == char_units(a.last()).last());
    } else {
        let x = char_units(a.last());
        let y = char_units(b.last());
        lemma_char_range(a.last());
        lemma_char_range(b.last());
        assert(w.last() == x.last());
        assert(w.last() == y.last());
        assert(x.len() == y.len());
        if x.len() == 2 {
            assert(w[w.len() - 2] == x[0]);
            assert(w[w.len() - 2] == y[0]);
        }
        assert(a.last() == b.last());
        assert(wide(a.drop_last()) =~= w.take(w.len() - x.len()));
        assert(wide(b.drop_last()) =~= w.take(w.len() - y.len()));
        lemma_wide_injective(a.drop_last(), b.drop_last());
        assert(a =~= a.drop_last().push(a.last()));
        assert(b =~= b.drop_last().push(b.last()));
    }
}

/// The code units of a text.
pub fn encode_wide(text: &str) -> (r: Vec<u16>)
    ensures
        r@ == wide(text@),
{
    let mut out: Vec<u16> = Vec::new();
    for c in it: text.chars()
        invariant
            it.seq() == text@,
            out@ == wide(it.seq().take(it.index())),
    {
        let ghost done = it.seq().take(it.index());
        proof {
            lemma_char_range(c);
        }
        let n: u32 = c as u32;
        assert(it.seq().take(it.index() + 1) =~= done.push(c));
        assert(done.push(c).drop_last() =~= done);
        if n < 0x10000 {
            out.push(n as u16);
        } else {
            out.push((0xD800 + (n - 0x10000) / 0x400) as u16);
            out.push((0xDC00 + (n - 0x10000) % 0x400) as u16);
        }
        assert(out@ =~= wide(done.push(c)));
    }
    assert(text@.take(text@.len() as int) =~= text@);
    out
}

/// The code units of a text followed by a terminating zero.
pub fn encode_wide_terminated(text: &str) -> (r: Vec<u16>)
    ensures
        r@ == wide(text@).push(0),
{
    let mut out = encode_wide(text);
    out.push(0);
    out
}

/// `String::from_utf16` gives the text whose code units are `units`, and an error where no text
/// has those code units.
#[verifier::external_body]
pub(crate) fn decode_wide(units: &[u16]) -> (r: Option<String>)
    ensures
        match r {
            Some(s) => wide(s@) == units@,
            None => forall|t: Seq<char>| #[trigger] wide(t) != units@,
        },
{
    String::from_utf16(units).ok()
}

/// Whether some text has the code units `units`.
pub open spec fn is_wide_text(units: Seq<u16>) -> bool {
    exists|t: Seq<char>| #[trigger] wide(t) == units
}

/// The code units before the first zero, or all of them where there is none.
pub open spec fn before_zero(units: Seq<u16>) -> Seq<u16>
    decreases units.len(),
{
    if units.len() == 0 || units[0] == 0 {
        seq![]
    } else {
        seq![units[0]] + before_zero(units.skip(1))
    }
}

/// The code units before the first zero are a prefix without zeros.
pub proof fn lemma_before_zero(units: Seq<u16>, n: int)
    requires
        0 <= n <= units.len(),
        forall|i: int| 0 <= i < n ==> units[i] != 0,
        n == units.len() || units[n] == 0,
    ensures
        before_zero(units) == units.take(n),
    decreases units.len(),
{
    if n == 0 {
        assert(units.take(0) =~= seq![]);
    } else {
        let rest = units.skip(1);
        assert forall|i: int| 0 <= i < n - 1 implies rest[i] != 0 by {
            assert(rest[i] == units[i + 1]);
        }
        lemma_before_zero(rest, n - 1);
        assert(units.take(n) =~= seq![units[0]] + rest.take(n - 1));
    }
}

/// The code units before the first zero.
pub fn until_zero(units: &Vec<u16>) -> (r: Vec<u16>)
    ensures
        r@ == before_zero(units@),
{
    let mut out: Vec<u16> = Vec::new();
    let mut i: usize = 0;
    while i < units.len() && units[i] != 0
        invariant
            i <= units@.len(),
            out@ == units@.take(i as int),
            forall|k: int| 0 <= k < i ==> units@[k] != 0,
        decreases units@.len() - i,
    {
        out.push(units[i]);
        i = i + 1;
    }
    proof {
        lemma_before_zero(units@, i as int);
    }
    out
}

/// A character below 0x10000 is one code unit, its own number. Any other is two, a high and a low
/// surrogate, with ten bits each of what is above 0x10000.
pub proof fn lemma_char_units(c: char)
    ensures
        ({
            let units = char_units(c);
            let n = c as int;
            &&& n < 0x10000 ==> units.len() == 1 && units[0] == n
            &&& n >= 0x10000 ==> {
                &&& units.len() == 2
                &&& 0xD800 <= units[0] < 0xDC00
                &&& 0xDC00 <= units[1] < 0xE000
                &&& (units[0] - 0xD800) * 0x400 + (units[1] - 0xDC00) + 0x10000 == n
            }
        }),
{
    lemma_char_range(c);
}

/// The code units of a text are those of its characters, in order.
pub proof fn lemma_wide_in_order(s: Seq<char>, next: char)
    ensures
        wide(Seq::empty()).len() == 0,
        wide(s.push(next)) == wide(s) + char_units(next),
{
    assert(s.push(next).drop_last() =~= s);
}

} // verus!
