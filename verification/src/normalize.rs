//! The name normalizer: from the lower-case, underscore-delimited identifiers
//! of the query language to the UpperCamelCase names of the remote schema.

use vstd::prelude::*;

verus! {

/// The upper-case form of an ASCII lower-case letter; every other character
/// is its own upper-case form.
pub open spec fn upper(c: char) -> char {
    if 'a' <= c <= 'z' {
        ((c as u8) - 32) as char
    } else {
        c
    }
}

/// The external name of an identifier: the underscores are dropped, the
/// first character and each character that follows an underscore is raised
/// to upper case, and every other character is kept as it is. An empty
/// segment contributes nothing.
pub open spec fn normalized(s: Seq<char>) -> Seq<char>
    decreases s.len(),
{
    if s.len() == 0 {
        Seq::empty()
    } else {
        let init = s.drop_last();
        let c = s.last();
        if c == '_' {
            normalized(init)
        } else if init.len() == 0 || init.last() == '_' {
            normalized(init).push(upper(c))
        } else {
            normalized(init).push(c)
        }
    }
}

/// The upper-case form of `c`.
pub fn to_upper(c: char) -> (u: char)
    ensures
        u == upper(c),
{
    if 'a' <= c && c <= 'z' {
        ((c as u8) - 32) as char
    } else {
        c
    }
}

/// The external name of `identifier`.
pub fn normalize(identifier: &str) -> (name: String)
    ensures
        name@ == normalized(identifier@),
{
    let mut name = String::new();
    let mut start = true;
    for c in it: identifier.chars()
        invariant
            it.seq() == identifier@,
            name@ == normalized(it.seq().take(it.index() as int)),
            start == (it.index() == 0 || it.seq()[it.index() - 1] == '_'),
    {
        proof {
            let head = it.seq().take(it.index() + 1);
            assert(head.drop_last() =~= it.seq().take(it.index() as int));
            assert(head.last() == c);
        }
        if c == '_' {
            start = true;
        } else {
            name.push(if start { to_upper(c) } else { c });
            start = false;
        }
    }
    assert(identifier@.take(identifier@.len() as int) =~= identifier@);
    name
}

/// An identifier is normalized segment by segment: what stands before an
/// underscore and what stands after it are normalized apart and joined,
/// with nothing in place of the underscore.
pub proof fn law_segments_are_normalized_apart(a: Seq<char>, b: Seq<char>)
    ensures
        normalized(a + seq!['_'] + b) == normalized(a) + normalized(b),
    decreases b.len(),
{
    let s = a + seq!['_'] + b;
    if b.len() == 0 {
        assert(s.drop_last() =~= a);
        assert(normalized(a) + normalized(b) =~= normalized(a));
    } else {
        let init = b.drop_last();
        law_segments_are_normalized_apart(a, init);
        assert(s.drop_last() =~= a + seq!['_'] + init);
        assert(s.last() == b.last());
        if init.len() > 0 {
            assert(s.drop_last().last() == init.last());
        } else {
            assert(s.drop_last().last() == '_');
        }
        assert(normalized(s) =~= normalized(a) + normalized(b));
    }
}

/// A segment, that is an identifier without an underscore, is normalized
/// by raising its first character; the rest is kept as it is.
pub proof fn law_a_segment_is_capitalized(w: Seq<char>)
    requires
        w.len() >= 1,
        forall|k: int| 0 <= k < w.len() ==> #[trigger] w[k] != '_',
    ensures
        normalized(w) == seq![upper(w[0])] + w.skip(1),
    decreases w.len(),
{
    let init = w.drop_last();
    if init.len() == 0 {
        assert(normalized(init) =~= Seq::<char>::empty());
        assert(normalized(w) =~= seq![upper(w[0])] + w.skip(1));
    } else {
        assert forall|k: int| 0 <= k < init.len() implies #[trigger] init[k] != '_' by {
            assert(init[k] == w[k]);
        }
        law_a_segment_is_capitalized(init);
        assert(init.last() == w[w.len() - 2]);
        assert(normalized(w) =~= seq![upper(w[0])] + w.skip(1));
    }
}

/// An external name holds no underscore.
pub proof fn law_no_underscore_is_left(s: Seq<char>)
    ensures
        forall|k: int| 0 <= k < normalized(s).len() ==> #[trigger] normalized(s)[k] != '_',
        normalized(s).len() <= s.len(),
    decreases s.len(),
{
    if s.len() > 0 {
        law_no_underscore_is_left(s.drop_last());
    }
}

} // verus!
