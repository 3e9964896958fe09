//! Characters, decimal numerals and the few string operations that the rest of
//! the crate is written in.

use vstd::prelude::*;

verus! {

/// `String::push` of the standard library: the character is appended to the
/// end of the string, and nothing else changes.
pub assume_specification[ String::push ](s: &mut String, c: char)
    ensures
        final(s)@ == old(s)@.push(c),
;

/// The character that writes the digit `d`, for `d` below ten.
pub open spec fn digit_char(d: nat) -> char {
    (d + 48) as char
}

/// The decimal numeral of `n`: most significant digit first, no sign, and no
/// leading zero except for zero itself.
pub open spec fn decimal(n: nat) -> Seq<char>
    decreases n,
{
    if n < 10 {
        seq![digit_char(n)]
    } else {
        decimal(n / 10).push(digit_char(n % 10))
    }
}

/// The views of the strings of `v`, in order.
pub open spec fn texts(v: Seq<String>) -> Seq<Seq<char>> {
    v.map_values(|s: String| s@)
}

/// The views of the items of `v`, in order.
pub open spec fn views<T: View>(v: Seq<T>) -> Seq<T::V> {
    v.map_values(|x: T| x@)
}

/// The parts of `parts` in order, with `sep` between each two neighbours.
pub open spec fn joined<A>(parts: Seq<Seq<A>>, sep: Seq<A>) -> Seq<A>
    decreases parts.len(),
{
    if parts.len() == 0 {
        Seq::empty()
    } else if parts.len() == 1 {
        parts[0]
    } else {
        joined(parts.drop_last(), sep) + sep + parts.last()
    }
}

/// Joining one part more: the first part stands alone, every later one
/// follows a separator.
pub proof fn lemma_joined_step<A>(parts: Seq<Seq<A>>, sep: Seq<A>, i: int)
    requires
        0 <= i < parts.len(),
    ensures
        joined(parts.take(i + 1), sep) == if i == 0 {
            parts[0]
        } else {
            joined(parts.take(i), sep) + sep + parts[i]
        },
{
    let head = parts.take(i + 1);
    assert(head.last() == parts[i]);
    assert(head.drop_last() =~= parts.take(i));
}

/// Joining from the front: the first part, a separator, and the rest
/// joined.
pub proof fn lemma_joined_front<A>(parts: Seq<Seq<A>>, sep: Seq<A>)
    requires
        parts.len() >= 2,
    ensures
        joined(parts, sep) == parts[0] + sep + joined(parts.drop_first(), sep),
    decreases parts.len(),
{
    let init = parts.drop_last();
    let rest = parts.drop_first();
    if parts.len() == 2 {
        assert(joined(init, sep) == parts[0]);
        assert(joined(rest, sep) == parts[1]);
    } else {
        lemma_joined_front(init, sep);
        assert(init.drop_first() =~= rest.drop_last());
        assert(joined(parts, sep) =~= parts[0] + sep + joined(rest, sep));
    }
}

/// The characters of `text`, in order.
pub fn chars_of(text: &str) -> (out: Vec<char>)
    ensures
        out@ == text@,
{
    let mut out: Vec<char> = Vec::new();
    for c in it: text.chars()
        invariant
            it.seq() == text@,
            out@ =~= it.seq().take(it.index() as int),
    {
        out.push(c);
    }
    assert(out@ =~= text@);
    out
}

/// A copy of `v` that holds the same texts in the same order.
pub fn clone_texts(v: &Vec<String>) -> (out: Vec<String>)
    ensures
        texts(out@) == texts(v@),
{
    let mut out: Vec<String> = Vec::new();
    let n: usize = v.len();
    for i in 0..n
        invariant
            n == v.len(),
            texts(out@) =~= texts(v@).take(i as int),
    {
        let ghost before = out@;
        let item = v[i].clone();
        out.push(item);
        assert(texts(out@) =~= texts(before).push(item@));
        assert(texts(v@).take(i + 1) =~= texts(v@).take(i as int).push(v@[i as int]@));
    }
    assert(texts(v@).take(n as int) =~= texts(v@));
    out
}

/// The characters `start..end` of `chars`, as a string.
pub fn text_of(chars: &Vec<char>, start: usize, end: usize) -> (out: String)
    requires
        start <= end <= chars.len(),
    ensures
        out@ == chars@.subrange(start as int, end as int),
{
    let mut out = String::new();
    for i in start..end
        invariant
            start <= end <= chars.len(),
            out@ =~= chars@.subrange(start as int, i as int),
    {
        out.push(chars[i]);
    }
    out
}

/// Appends the decimal numeral of `n` to `out`.
pub fn push_decimal(out: &mut String, n: u32)
    ensures
        final(out)@ == old(out)@ + decimal(n as nat),
    decreases n,
{
    if n >= 10 {
        push_decimal(out, n / 10);
    }
    let d: u8 = (n % 10) as u8;
    out.push((d + 48) as char);
}

} // verus!
