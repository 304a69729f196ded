//! What the operations on strings come to, character by character.
use crate::external::is_space;
use crate::text::{
    begins_with, contains_text, first_index, joined, lemma_first_index, lemma_nothing_to_replace,
    occurs_at, pieces, replaced, without_leading, word_length, words,
};
use vstd::prelude::*;

verus! {

/// The characters of `p` stand in `s` from index `i` on.
pub open spec fn reads_at(s: Seq<char>, p: Seq<char>, i: int) -> bool {
    0 <= i && i + p.len() <= s.len() && forall|k: int|
        0 <= k < p.len() ==> s[i + k] == #[trigger] p[k]
}

/// The characters of `p` stand somewhere in `s`.
pub open spec fn stands_in(s: Seq<char>, p: Seq<char>) -> bool {
    exists|i: int| #[trigger] reads_at(s, p, i)
}

/// A text begins with another where the other's characters are its first ones.
pub proof fn beginning_is_by_character(s: Seq<char>, p: Seq<char>)
    ensures
        begins_with(s, p) <==> p.len() <= s.len() && forall|k: int|
            0 <= k < p.len() ==> s[k] == #[trigger] p[k],
{
    if begins_with(s, p) {
        assert forall|k: int| 0 <= k < p.len() implies s[k] == #[trigger] p[k] by {
            assert(s.take(p.len() as int)[k] == p[k]);
        }
    } else if p.len() <= s.len() && forall|k: int| 0 <= k < p.len() ==> s[k] == #[trigger] p[k] {
        assert(s.take(p.len() as int) =~= p);
    }
}

/// An occurrence at an index, by character.
pub proof fn lemma_reads_at(s: Seq<char>, p: Seq<char>, i: int)
    ensures
        occurs_at(s, p, i) <==> reads_at(s, p, i),
{
    if 0 <= i <= s.len() {
        let t = s.skip(i);
        beginning_is_by_character(t, p);
        if reads_at(s, p, i) {
            assert forall|k: int| 0 <= k < p.len() implies t[k] == #[trigger] p[k] by {
                assert(t[k] == s[i + k]);
            }
        }
        if begins_with(t, p) {
            assert forall|k: int| 0 <= k < p.len() implies s[i + k] == #[trigger] p[k] by {
                assert(t[k] == s[i + k]);
            }
        }
    }
}

/// A text occurs in another where its characters stand there one after the
/// other.
pub proof fn occurrence_is_by_character(s: Seq<char>, p: Seq<char>)
    ensures
        contains_text(s, p) <==> stands_in(s, p),
{
    if contains_text(s, p) {
        let i = choose|i: int| occurs_at(s, p, i);
        lemma_reads_at(s, p, i);
    }
    if stands_in(s, p) {
        let i = choose|i: int| #[trigger] reads_at(s, p, i);
        lemma_reads_at(s, p, i);
    }
}

/// The first occurrence of a text is where it stands and nowhere before.
pub proof fn first_occurrence_is_first(s: Seq<char>, p: Seq<char>)
    ensures
        match first_index(s, p) {
            Some(i) => reads_at(s, p, i) && forall|j: int|
                0 <= j < i ==> !#[trigger] reads_at(s, p, j),
            None => !stands_in(s, p),
        },
{
    lemma_first_index(s, p);
    occurrence_is_by_character(s, p);
    assert forall|j: int| occurs_at(s, p, j) == #[trigger] reads_at(s, p, j) by {
        lemma_reads_at(s, p, j);
    }
    match first_index(s, p) {
        Some(i) => {
            lemma_reads_at(s, p, i);
            assert forall|j: int| 0 <= j < i implies !#[trigger] reads_at(s, p, j) by {
                lemma_reads_at(s, p, j);
                assert(!occurs_at(s, p, j));
            }
        },
        None => {
            if stands_in(s, p) {
                assert(contains_text(s, p));
            }
        },
    }
}

/// The first occurrence is replaced where it stands, and the rest of the text
/// is treated alike; a text without an occurrence stays as it is.
pub proof fn replacing_goes_on_after_each_occurrence(
    a: Seq<char>,
    p: Seq<char>,
    b: Seq<char>,
    r: Seq<char>,
)
    requires
        p.len() > 0,
        forall|i: int| 0 <= i < a.len() ==> !#[trigger] reads_at(a + p + b, p, i),
    ensures
        replaced(a + p + b, p, r) == a + r + replaced(b, p, r),
        forall|s: Seq<char>| !stands_in(s, p) ==> #[trigger] replaced(s, p, r) == s,
    decreases a.len(),
{
    let s = a + p + b;
    assert forall|t: Seq<char>| !stands_in(t, p) implies #[trigger] replaced(t, p, r) == t by {
        occurrence_is_by_character(t, p);
        lemma_nothing_to_replace(t, p, r);
    }
    if a.len() == 0 {
        assert(s.take(p.len() as int) =~= p);
        assert(s.skip(p.len() as int) =~= b);
        assert(a + r + replaced(b, p, r) =~= r + replaced(b, p, r));
    } else {
        assert(!reads_at(s, p, 0));
        lemma_reads_at(s, p, 0);
        assert(s.skip(0) =~= s);
        let rest = a.skip(1);
        assert(s.skip(1) =~= rest + p + b);
        assert forall|i: int| 0 <= i < rest.len() implies !#[trigger] reads_at(
            rest + p + b,
            p,
            i,
        ) by {
            if reads_at(rest + p + b, p, i) {
                assert forall|k: int| 0 <= k < p.len() implies s[i + 1 + k] == #[trigger] p[k] by {
                    assert((rest + p + b)[i + k] == p[k]);
                    assert(s.skip(1)[i + k] == s[i + 1 + k]);
                }
                assert(reads_at(s, p, i + 1));
            }
        }
        replacing_goes_on_after_each_occurrence(rest, p, b, r);
        assert(seq![s[0]] + (rest + r + replaced(b, p, r)) =~= a + r + replaced(b, p, r));
    }
}

/// Each of the parts with the separator after it.
pub open spec fn each_ended(parts: Seq<Seq<char>>, sep: Seq<char>) -> Seq<Seq<char>> {
    parts.map_values(|p: Seq<char>| p + sep)
}

/// Joined parts are the parts one after the other, each but the last followed
/// by the separator.
pub proof fn joining_concatenates(parts: Seq<Seq<char>>, sep: Seq<char>)
    ensures
        parts.len() == 0 ==> joined(parts, sep) == Seq::<char>::empty(),
        parts.len() > 0 ==> joined(parts, sep) + sep == each_ended(parts, sep).flatten(),
    decreases parts.len(),
{
    if parts.len() == 1 {
        assert(each_ended(parts, sep) =~= seq![parts[0] + sep]);
        each_ended(parts, sep).lemma_flatten_one_element();
    } else if parts.len() > 1 {
        let before = parts.drop_last();
        joining_concatenates(before, sep);
        assert(each_ended(parts, sep) =~= each_ended(before, sep).push(parts.last() + sep));
        each_ended(before, sep).lemma_flatten_push(parts.last() + sep);
        assert(joined(before, sep) + sep + parts.last() + sep =~= (joined(before, sep) + sep) + (
        parts.last() + sep));
    }
}

/// Joining with one more part in front.
proof fn lemma_joined_front(first: Seq<char>, rest: Seq<Seq<char>>, sep: Seq<char>)
    requires
        rest.len() > 0,
    ensures
        joined(seq![first] + rest, sep) == first + sep + joined(rest, sep),
    decreases rest.len(),
{
    let all = seq![first] + rest;
    assert(all.drop_last() =~= seq![first] + rest.drop_last());
    assert(all.last() == rest.last());
    if rest.len() == 1 {
        assert(all.drop_last() =~= seq![first]);
        assert(joined(seq![first], sep) == first);
        assert(joined(rest, sep) == rest[0]);
    } else {
        lemma_joined_front(first, rest.drop_last(), sep);
        assert(first + sep + joined(rest.drop_last(), sep) + sep + rest.last() =~= first + sep + (
        joined(rest.drop_last(), sep) + sep + rest.last()));
    }
}

/// Splitting leaves pieces without the separator, and joining them gives the
/// text back.
pub proof fn joining_undoes_splitting(s: Seq<char>, sep: Seq<char>)
    requires
        sep.len() > 0,
    ensures
        pieces(s, sep).len() > 0,
        joined(pieces(s, sep), sep) == s,
        forall|i: int|
            0 <= i < pieces(s, sep).len() ==> !stands_in(#[trigger] pieces(s, sep)[i], sep),
    decreases s.len(),
{
    first_occurrence_is_first(s, sep);
    match first_index(s, sep) {
        Some(i) => {
            let n = sep.len() as int;
            let head = s.take(i);
            let rest = s.skip(i + n);
            joining_undoes_splitting(rest, sep);
            lemma_joined_front(head, pieces(rest, sep), sep);
            assert(s.subrange(i, i + n) =~= sep);
            assert(s =~= head + sep + rest);
            if stands_in(head, sep) {
                let j = choose|j: int| #[trigger] reads_at(head, sep, j);
                assert forall|k: int| 0 <= k < n implies s[j + k] == #[trigger] sep[k] by {
                    assert(head[j + k] == sep[k]);
                }
                assert(reads_at(s, sep, j));
            }
            let all = pieces(s, sep);
            assert(all == seq![head] + pieces(rest, sep));
            assert forall|k: int| 0 <= k < all.len() implies !stands_in(#[trigger] all[k], sep) by {
                if k > 0 {
                    assert(all[k] == pieces(rest, sep)[k - 1]);
                }
            }
        },
        None => {
            assert(pieces(s, sep) == seq![s]);
        },
    }
}

/// The characters before the first white space.
proof fn lemma_word(s: Seq<char>)
    ensures
        word_length(s) <= s.len(),
        forall|i: int| 0 <= i < word_length(s) ==> !is_space(#[trigger] s[i]),
        word_length(s) < s.len() ==> is_space(s[word_length(s) as int]),
    decreases s.len(),
{
    if s.len() > 0 && !is_space(s[0]) {
        let t = s.skip(1);
        lemma_word(t);
        assert forall|i: int| 0 <= i < word_length(s) implies !is_space(#[trigger] s[i]) by {
            if i > 0 {
                assert(t[i - 1] == s[i]);
            }
        }
    }
}

/// Where a text goes on with a white space, its first word ends there at the
/// latest.
proof fn lemma_word_before_space(a: Seq<char>, c: char, b: Seq<char>)
    requires
        is_space(c),
    ensures
        word_length(a + seq![c] + b) == word_length(a),
    decreases a.len(),
{
    let s = a + seq![c] + b;
    if a.len() == 0 {
        assert(s[0] == c);
    } else {
        assert(s[0] == a[0]);
        assert(s.skip(1) =~= a.skip(1) + seq![c] + b);
        lemma_word_before_space(a.skip(1), c, b);
    }
}

/// White space parts words: the words before it and those after it are the
/// words of the whole, and a text that is not empty and has no white space is
/// one word.
pub proof fn white_space_parts_words(a: Seq<char>, c: char, b: Seq<char>)
    requires
        is_space(c),
    ensures
        words(a + seq![c] + b) == words(a) + words(b),
        (forall|i: int| 0 <= i < a.len() ==> !is_space(#[trigger] a[i])) && a.len() > 0 ==> words(a)
            == seq![a],
        a.len() == 0 ==> words(a) == Seq::<Seq<char>>::empty(),
    decreases a.len(),
{
    let s = a + seq![c] + b;
    if a.len() == 0 {
        assert(s[0] == c);
        assert(s.skip(1) =~= b);
        assert(words(a) + words(b) =~= words(b));
    } else {
        assert(s[0] == a[0]);
        if is_space(a[0]) {
            assert(s.skip(1) =~= a.skip(1) + seq![c] + b);
            white_space_parts_words(a.skip(1), c, b);
        } else {
            let n = word_length(a) as int;
            lemma_word(a);
            lemma_word_before_space(a, c, b);
            assert(n > 0);
            assert(s.take(n) =~= a.take(n));
            assert(s.skip(n) =~= a.skip(n) + seq![c] + b);
            white_space_parts_words(a.skip(n), c, b);
            assert(seq![a.take(n)] + (words(a.skip(n)) + words(b)) =~= seq![a.take(n)] + words(
                a.skip(n),
            ) + words(b));
            if forall|i: int| 0 <= i < a.len() ==> !is_space(#[trigger] a[i]) {
                assert(n == a.len());
                assert(a.take(n) =~= a);
                assert(words(a) =~= seq![a]);
            }
        }
    }
}

/// Copies of a text that another begins with are left away, all of them and
/// nothing else.
pub proof fn leading_copies_are_left_away(s: Seq<char>, p: Seq<char>)
    requires
        p.len() > 0,
    ensures
        without_leading(p + s, p) == without_leading(s, p),
        !reads_at(s, p, 0) ==> without_leading(s, p) == s,
{
    assert((p + s).take(p.len() as int) =~= p);
    assert((p + s).skip(p.len() as int) =~= s);
    lemma_reads_at(s, p, 0);
    assert(s.skip(0) =~= s);
}

} // verus!
