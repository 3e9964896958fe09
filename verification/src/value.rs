//! The values that a query is built with: the bindings of its names, and
//! the textual form of its literals.

use vstd::prelude::*;
use vstd::string::*;
use crate::text::{chars_of, text_of, texts, views};
use crate::token::{digit, is_digit};

verus! {

/// What a name of a query stands for: one value, or a sequence of values.
/// Values are given in their textual form.
#[derive(Debug, PartialEq, Eq)]
pub enum Value {
    Scalar(String),
    Sequence(Vec<String>),
}

/// A name and what it stands for.
#[derive(Debug, PartialEq, Eq)]
pub struct Binding {
    pub name: String,
    pub value: Value,
}

/// What a [`Value`] holds.
pub enum ValueView {
    Scalar(Seq<char>),
    Sequence(Seq<Seq<char>>),
}

/// What a [`Binding`] holds.
pub struct BindingView {
    pub name: Seq<char>,
    pub value: ValueView,
}

impl View for Value {
    type V = ValueView;

    open spec fn view(&self) -> ValueView {
        match self {
            Value::Scalar(text) => ValueView::Scalar(text@),
            Value::Sequence(items) => ValueView::Sequence(texts(items@)),
        }
    }
}

impl View for Binding {
    type V = BindingView;

    open spec fn view(&self) -> BindingView {
        BindingView { name: self.name@, value: self.value@ }
    }
}

/// Why a value term could not be turned into text.
#[derive(Debug, Clone, Copy, PartialEq, Eq, Structural)]
pub enum ValueErrorKind {
    /// The term is a name that nothing is bound to.
    Unbound,
    /// One value is needed, and the term stands for a sequence.
    NotScalar,
    /// A sequence is needed, and the term stands for one value.
    NotSequence,
    /// An unsigned integer of 32 bits is needed, and the text is none.
    NotUnsigned,
}

/// A value term that could not be used. `term` is the text of the term, or
/// for `NotUnsigned` the text that is no such integer.
#[derive(Debug, PartialEq, Eq)]
pub struct ValueError {
    pub kind: ValueErrorKind,
    pub term: String,
}

/// What a [`ValueError`] holds.
pub struct ValueErrorView {
    pub kind: ValueErrorKind,
    pub term: Seq<char>,
}

impl View for ValueError {
    type V = ValueErrorView;

    open spec fn view(&self) -> ValueErrorView {
        ValueErrorView { kind: self.kind, term: self.term@ }
    }
}

/// What `name` stands for: the value of the first binding of that name.
pub open spec fn lookup(env: Seq<BindingView>, name: Seq<char>) -> Option<ValueView>
    decreases env.len(),
{
    if env.len() == 0 {
        None
    } else if env[0].name == name {
        Some(env[0].value)
    } else {
        lookup(env.drop_first(), name)
    }
}

/// What an optional value holds.
pub open spec fn value_view(value: Option<&Value>) -> Option<ValueView> {
    match value {
        Some(value) => Some(value@),
        None => None,
    }
}

/// Looks `name` up in `env`.
pub fn find<'a>(env: &'a Vec<Binding>, name: &String) -> (value: Option<&'a Value>)
    ensures
        value_view(value) == lookup(views(env@), name@),
{
    let ghost all = views(env@);
    let n: usize = env.len();
    assert(all.skip(0) =~= all);
    for i in 0..n
        invariant
            n == env.len(),
            all == views(env@),
            lookup(all, name@) == lookup(all.skip(i as int), name@),
    {
        assert(all.skip(i as int).drop_first() =~= all.skip(i + 1));
        if env[i].name == *name {
            return Some(&env[i].value);
        }
    }
    None
}

/// The place of the first point at or after `pos`, or the length of the
/// text where there is none.
pub open spec fn point_at(s: Seq<char>, pos: int) -> int
    decreases s.len() - pos,
{
    if 0 <= pos < s.len() && s[pos] != '.' {
        point_at(s, pos + 1)
    } else {
        pos
    }
}

/// The digits without their leading zeros; the last digit always stays.
pub open spec fn without_leading_zeros(s: Seq<char>) -> Seq<char>
    decreases s.len(),
{
    if s.len() > 1 && s[0] == '0' {
        without_leading_zeros(s.drop_first())
    } else {
        s
    }
}

/// The digits without their trailing zeros.
pub open spec fn without_trailing_zeros(s: Seq<char>) -> Seq<char>
    decreases s.len(),
{
    if s.len() > 0 && s.last() == '0' {
        without_trailing_zeros(s.drop_last())
    } else {
        s
    }
}

/// The textual form of a number literal: its whole part without leading
/// zeros and, where the fraction has a digit other than zero, a point and
/// the fraction without trailing zeros. So `1000.0` is written `1000`, and
/// `007.50` is written `7.5`.
pub open spec fn number_text(s: Seq<char>) -> Seq<char> {
    let p = point_at(s, 0);
    let whole = without_leading_zeros(s.take(p));
    if p >= s.len() {
        whole
    } else {
        let fraction = without_trailing_zeros(s.skip(p + 1));
        if fraction.len() == 0 {
            whole
        } else {
            whole + seq!['.'] + fraction
        }
    }
}

/// The textual form of the number literal `literal`.
pub fn render_number(literal: &String) -> (out: String)
    ensures
        out@ == number_text(literal@),
{
    let chars = chars_of(literal.as_str());
    let n: usize = chars.len();
    let mut p: usize = 0;
    while p < n && chars[p] != '.'
        invariant
            n == chars.len(),
            p <= n,
            point_at(chars@, 0) == point_at(chars@, p as int),
        decreases n - p,
    {
        p += 1;
    }
    let ghost whole = chars@.take(p as int);
    let mut a: usize = 0;
    assert(chars@.subrange(0, p as int) =~= whole);
    while p - a > 1 && chars[a] == '0'
        invariant
            n == chars.len(),
            a <= p <= n,
            without_leading_zeros(whole) == without_leading_zeros(
                chars@.subrange(a as int, p as int),
            ),
        decreases p - a,
    {
        assert(chars@.subrange(a as int, p as int).drop_first() =~= chars@.subrange(
            a + 1,
            p as int,
        ));
        a += 1;
    }
    let mut out = text_of(&chars, a, p);
    if p < n {
        let ghost fraction = chars@.skip(p + 1);
        let mut b: usize = n;
        assert(chars@.subrange(p + 1, n as int) =~= fraction);
        while b - p > 1 && chars[b - 1] == '0'
            invariant
                n == chars.len(),
                p < b <= n,
                without_trailing_zeros(fraction) == without_trailing_zeros(
                    chars@.subrange(p + 1, b as int),
                ),
            decreases b,
        {
            assert(chars@.subrange(p + 1, b as int).drop_last() =~= chars@.subrange(
                p + 1,
                b - 1,
            ));
            b -= 1;
        }
        if b - p > 1 {
            out.push('.');
            let digits = text_of(&chars, p + 1, b);
            out.append(digits.as_str());
        }
    }
    assert(out@ =~= number_text(literal@));
    out
}

/// The number that the digit `c` writes.
pub open spec fn digit_value(c: char) -> nat {
    (c as int - 48) as nat
}

/// The number that the digits of `s` write in base ten.
pub open spec fn decimal_value(s: Seq<char>) -> nat
    decreases s.len(),
{
    if s.len() == 0 {
        0
    } else {
        decimal_value(s.drop_last()) * 10 + digit_value(s.last())
    }
}

/// Whether `s` holds digits only.
pub open spec fn all_digits(s: Seq<char>) -> bool {
    forall|i: int| 0 <= i < s.len() ==> digit(#[trigger] s[i])
}

/// The unsigned integer of 32 bits that `s` writes: `s` is a run of at
/// least one digit, and its number fits.
pub open spec fn unsigned_of(s: Seq<char>) -> Option<u32> {
    if s.len() > 0 && all_digits(s) && decimal_value(s) <= u32::MAX {
        Some(decimal_value(s) as u32)
    } else {
        None
    }
}

/// More digits never write a smaller number.
pub proof fn lemma_decimal_value_grows(s: Seq<char>, k: int)
    requires
        0 <= k <= s.len(),
    ensures
        decimal_value(s.take(k)) <= decimal_value(s),
    decreases s.len() - k,
{
    if k < s.len() {
        lemma_decimal_value_grows(s.drop_last(), k);
        assert(s.drop_last().take(k) =~= s.take(k));
    } else {
        assert(s.take(k) =~= s);
    }
}

/// Reads `text` as an unsigned integer of 32 bits.
pub fn parse_unsigned(text: &String) -> (r: Option<u32>)
    ensures
        r == unsigned_of(text@),
{
    let chars = chars_of(text.as_str());
    let n: usize = chars.len();
    if n == 0 {
        return None;
    }
    let mut acc: u64 = 0;
    for i in 0..n
        invariant
            n == chars.len(),
            chars@ == text@,
            all_digits(chars@.take(i as int)),
            acc == decimal_value(chars@.take(i as int)),
            acc <= u32::MAX,
    {
        let c = chars[i];
        proof {
            assert(chars@.take(i + 1).drop_last() =~= chars@.take(i as int));
            assert(chars@.take(i + 1).last() == c);
            lemma_decimal_value_grows(chars@, i + 1);
        }
        if !is_digit(c) {
            assert(!digit(chars@[i as int]));
            return None;
        }
        acc = acc * 10 + ((c as u8 - 48) as u64);
        if acc > 0xffff_ffff {
            return None;
        }
    }
    assert(chars@.take(n as int) =~= chars@);
    Some(acc as u32)
}

} // verus!
