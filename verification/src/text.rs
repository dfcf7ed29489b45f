//! Splitting strings on a separator character, as field specifications and
//! field paths require.

use vstd::prelude::*;

verus! {

/// Splitting a sequence of characters on a separator, as `str::split` has it:
/// there is always at least one token, and an empty sequence yields one empty
/// token.
pub open spec fn split_on(s: Seq<char>, sep: char) -> Seq<Seq<char>>
    decreases s.len(),
{
    if s.len() == 0 {
        seq![Seq::<char>::empty()]
    } else if s[0] == sep {
        seq![Seq::<char>::empty()] + split_on(s.drop_first(), sep)
    } else {
        let rest = split_on(s.drop_first(), sep);
        seq![seq![s[0]] + rest[0]] + rest.drop_first()
    }
}

/// The views of a sequence of strings, elementwise.
pub open spec fn views_of(tokens: Seq<String>) -> Seq<Seq<char>> {
    Seq::new(tokens.len(), |i: int| tokens[i]@)
}

/// Splitting yields at least one token.
pub proof fn lemma_split_len(s: Seq<char>, sep: char)
    ensures
        split_on(s, sep).len() >= 1,
    decreases s.len(),
{
    if s.len() > 0 && s[0] != sep {
        lemma_split_len(s.drop_first(), sep);
    }
}

/// A sequence in which the separator does not occur is one token.
pub proof fn lemma_split_whole(s: Seq<char>, sep: char)
    requires
        forall|i: int| 0 <= i < s.len() ==> s[i] != sep,
    ensures
        split_on(s, sep) == seq![s],
    decreases s.len(),
{
    if s.len() == 0 {
        assert(Seq::<char>::empty() =~= s);
        assert(split_on(s, sep) =~= seq![s]);
    } else {
        assert(s.drop_first().len() < s.len());
        lemma_split_whole(s.drop_first(), sep);
        assert(seq![s[0]] + s.drop_first() =~= s);
        assert(seq![s.drop_first()].drop_first() =~= Seq::<Seq<char>>::empty());
        assert(seq![seq![s[0]] + s.drop_first()] + Seq::<Seq<char>>::empty() =~= seq![s]);
    }
}

/// The first occurrence of the separator, at position `d`, splits off the
/// characters before it as the head token.
pub proof fn lemma_split_at(s: Seq<char>, sep: char, d: int)
    requires
        0 <= d < s.len(),
        s[d] == sep,
        forall|i: int| 0 <= i < d ==> s[i] != sep,
    ensures
        split_on(s, sep) == seq![s.take(d)] + split_on(s.skip(d + 1), sep),
    decreases d,
{
    if d == 0 {
        assert(s.take(0) =~= Seq::<char>::empty());
        assert(s.skip(1) =~= s.drop_first());
        assert(seq![Seq::<char>::empty()] + split_on(s.drop_first(), sep) =~= seq![s.take(0)]
            + split_on(s.skip(1), sep));
    } else {
        let t = s.drop_first();
        lemma_split_at(t, sep, d - 1);
        let rest = split_on(t, sep);
        assert(rest == seq![t.take(d - 1)] + split_on(t.skip(d), sep));
        assert(rest[0] == t.take(d - 1));
        assert(seq![s[0]] + t.take(d - 1) =~= s.take(d));
        assert(rest.drop_first() =~= split_on(t.skip(d), sep));
        assert(t.skip(d) =~= s.skip(d + 1));
        assert(seq![seq![s[0]] + rest[0]] + rest.drop_first() =~= seq![s.take(d)] + split_on(
            s.skip(d + 1),
            sep,
        ));
    }
}

/// Split a string on a separator character, as `str::split` does.
#[verifier::loop_isolation(false)]
pub fn split_str(s: &str, sep: char) -> (r: Vec<String>)
    ensures
        views_of(r@) == split_on(s@, sep),
{
    let n: usize = s.unicode_len();
    let mut out: Vec<String> = Vec::new();
    let mut start: usize = 0;
    let mut i: usize = 0;
    proof {
        assert(s@.skip(0) =~= s@);
        assert(views_of(out@) + split_on(s@, sep) =~= split_on(s@, sep));
    }
    while i < n
        invariant
            start <= i <= n,
            forall|j: int| start <= j < i ==> s@[j] != sep,
            split_on(s@, sep) == views_of(out@) + split_on(s@.skip(start as int), sep),
        decreases n - i,
    {
        let c = s.get_char(i);
        if c == sep {
            let tok = s.substring_char(start, i).to_owned();
            proof {
                lemma_split_at(s@.skip(start as int), sep, i as int - start as int);
                assert(s@.skip(start as int).take(i as int - start as int) =~= s@.subrange(
                    start as int,
                    i as int,
                ));
                assert(s@.skip(start as int).skip(i as int - start as int + 1) =~= s@.skip(
                    i as int + 1,
                ));
                assert(views_of(out@.push(tok)) =~= views_of(out@) + seq![tok@]);
                assert((views_of(out@) + seq![tok@]) + split_on(s@.skip(i as int + 1), sep)
                    =~= views_of(out@) + (seq![tok@] + split_on(s@.skip(i as int + 1), sep)));
            }
            out.push(tok);
            start = i + 1;
        }
        i += 1;
    }
    let tok = s.substring_char(start, n).to_owned();
    proof {
        assert(s@.subrange(start as int, n as int) =~= s@.skip(start as int));
        lemma_split_whole(s@.skip(start as int), sep);
        assert(views_of(out@.push(tok)) =~= views_of(out@) + seq![tok@]);
        assert(views_of(out@) + seq![s@.skip(start as int)] =~= split_on(s@, sep));
    }
    out.push(tok);
    out
}

} // verus!
