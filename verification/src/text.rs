//! Strings as sequences of characters: searching, replacing, splitting and
//! joining.
use crate::external::is_space;
use vstd::prelude::*;

verus! {

/// The views of the elements of a sequence.
pub open spec fn views<T: View>(s: Seq<T>) -> Seq<T::V> {
    Seq::new(s.len(), |i: int| s[i]@)
}

/// `s` begins with `p`.
pub open spec fn begins_with(s: Seq<char>, p: Seq<char>) -> bool {
    p.len() <= s.len() && s.take(p.len() as int) == p
}

/// `p` occurs in `s` at index `i`.
pub open spec fn occurs_at(s: Seq<char>, p: Seq<char>, i: int) -> bool {
    0 <= i <= s.len() && begins_with(s.skip(i), p)
}

/// `p` occurs somewhere in `s`.
pub open spec fn contains_text(s: Seq<char>, p: Seq<char>) -> bool {
    exists|i: int| occurs_at(s, p, i)
}

/// Index of the first occurrence of `p` in `s`.
pub open spec fn first_index(s: Seq<char>, p: Seq<char>) -> Option<int>
    decreases s.len(),
{
    if begins_with(s, p) {
        Some(0)
    } else if s.len() == 0 {
        None
    } else {
        match first_index(s.skip(1), p) {
            Some(i) => Some(i + 1),
            None => None,
        }
    }
}

/// `s` with every occurrence of `p`, found from left to right without overlap,
/// replaced by `r`.
pub open spec fn replaced(s: Seq<char>, p: Seq<char>, r: Seq<char>) -> Seq<char>
    decreases s.len(),
{
    if s.len() == 0 || p.len() == 0 {
        s
    } else if begins_with(s, p) {
        r + replaced(s.skip(p.len() as int), p, r)
    } else {
        seq![s[0]] + replaced(s.skip(1), p, r)
    }
}

/// The pieces of `s` between the occurrences of `sep`, in order.
pub open spec fn pieces(s: Seq<char>, sep: Seq<char>) -> Seq<Seq<char>>
    decreases s.len(),
{
    if sep.len() == 0 {
        seq![s]
    } else {
        match first_index(s, sep) {
            Some(i) => if 0 <= i && i + sep.len() <= s.len() {
                seq![s.take(i)] + pieces(s.skip(i + sep.len() as int), sep)
            } else {
                seq![s]
            },
            None => seq![s],
        }
    }
}

/// The elements of `parts` in order, with `sep` between neighbours.
pub open spec fn joined(parts: Seq<Seq<char>>, sep: Seq<char>) -> Seq<char>
    decreases parts.len(),
{
    if parts.len() == 0 {
        Seq::empty()
    } else if parts.len() == 1 {
        parts[0]
    } else {
        joined(parts.drop_last(), sep) + sep + parts.last()
    }
}

/// `s` without the copies of `p` that it begins with.
pub open spec fn without_leading(s: Seq<char>, p: Seq<char>) -> Seq<char>
    decreases s.len(),
{
    if p.len() > 0 && begins_with(s, p) {
        without_leading(s.skip(p.len() as int), p)
    } else {
        s
    }
}

/// How many characters of `s` come before its first white space.
pub open spec fn word_length(s: Seq<char>) -> nat
    decreases s.len(),
{
    if s.len() == 0 || is_space(s[0]) {
        0
    } else {
        1 + word_length(s.skip(1))
    }
}

/// The longest runs of characters of `s` without white space, in order.
pub open spec fn words(s: Seq<char>) -> Seq<Seq<char>>
    decreases s.len(),
{
    if s.len() == 0 {
        Seq::empty()
    } else if is_space(s[0]) {
        words(s.skip(1))
    } else {
        let n = word_length(s);
        if 0 < n <= s.len() {
            seq![s.take(n as int)] + words(s.skip(n as int))
        } else {
            Seq::empty()
        }
    }
}

/// A word is no longer than the text it stands in.
proof fn lemma_word_length(s: Seq<char>)
    ensures
        word_length(s) <= s.len(),
    decreases s.len(),
{
    if s.len() > 0 && !is_space(s[0]) {
        lemma_word_length(s.skip(1));
    }
}

/// Every word occurs in its text.
pub proof fn lemma_words(s: Seq<char>)
    ensures
        forall|k: int| 0 <= k < words(s).len() ==> contains_text(s, #[trigger] words(s)[k]),
    decreases s.len(),
{
    lemma_word_length(s);
    if s.len() > 0 {
        let n = word_length(s) as int;
        let (cut, found) = if is_space(s[0]) {
            (1int, Seq::<Seq<char>>::empty())
        } else {
            (n, seq![s.take(n)])
        };
        if cut > 0 {
            let rest = s.skip(cut);
            lemma_words(rest);
            assert(words(s) =~= found + words(rest));
            assert forall|k: int| 0 <= k < words(s).len() implies contains_text(
                s,
                #[trigger] words(s)[k],
            ) by {
                let w = words(s)[k];
                if k < found.len() {
                    assert(s.skip(0) =~= s);
                    assert(s.skip(0).take(w.len() as int) =~= w);
                    assert(occurs_at(s, w, 0));
                } else {
                    assert(w == words(rest)[k - found.len()]);
                    let i = choose|i: int| occurs_at(rest, w, i);
                    assert(rest.skip(i) =~= s.skip(cut + i));
                    assert(occurs_at(s, w, cut + i));
                }
            }
        }
    }
}

/// The first occurrence is an occurrence, and nothing occurs before it.
pub proof fn lemma_first_index(s: Seq<char>, p: Seq<char>)
    ensures
        match first_index(s, p) {
            Some(i) => occurs_at(s, p, i) && i + p.len() <= s.len() && forall|j: int|
                j < i ==> !occurs_at(s, p, j),
            None => !contains_text(s, p),
        },
    decreases s.len(),
{
    assert(s.skip(0) =~= s);
    if begins_with(s, p) {
    } else if s.len() == 0 {
        assert forall|i: int| !occurs_at(s, p, i) by {
            if 0 <= i <= s.len() {
                assert(i == 0);
            }
        }
    } else {
        lemma_first_index(s.skip(1), p);
        assert forall|j: int| 1 <= j <= s.len() implies #[trigger] s.skip(j) == s.skip(1).skip(j - 1) by {
            assert(s.skip(j) =~= s.skip(1).skip(j - 1));
        }
        match first_index(s.skip(1), p) {
            Some(i) => {
                assert(s.skip(i + 1) == s.skip(1).skip(i));
                assert forall|j: int| j < i + 1 implies !occurs_at(s, p, j) by {
                    if occurs_at(s, p, j) {
                        if j == 0 {
                        } else {
                            assert(occurs_at(s.skip(1), p, j - 1));
                        }
                    }
                }
            },
            None => {
                assert forall|j: int| !occurs_at(s, p, j) by {
                    if occurs_at(s, p, j) {
                        if j == 0 {
                        } else {
                            assert(occurs_at(s.skip(1), p, j - 1));
                        }
                    }
                }
            },
        }
    }
}

/// What does not occur in a text cannot be replaced in it.
pub proof fn lemma_nothing_to_replace(s: Seq<char>, p: Seq<char>, r: Seq<char>)
    requires
        !contains_text(s, p),
        p.len() > 0,
    ensures
        replaced(s, p, r) == s,
    decreases s.len(),
{
    if s.len() > 0 {
        assert(s.skip(0) =~= s);
        assert(!occurs_at(s, p, 0));
        assert forall|i: int| !occurs_at(s.skip(1), p, i) by {
            if occurs_at(s.skip(1), p, i) {
                assert(s.skip(1).skip(i) =~= s.skip(i + 1));
                assert(occurs_at(s, p, i + 1));
            }
        }
        lemma_nothing_to_replace(s.skip(1), p, r);
        assert(seq![s[0]] + s.skip(1) =~= s);
    }
}

/// The characters of a string.
pub fn chars_of(s: &str) -> (cs: Vec<char>)
    ensures
        cs@ == s@,
{
    let mut cs: Vec<char> = Vec::new();
    for c in it: s.chars()
        invariant
            cs@ == s@.take(it.index() as int),
            it.seq() == s@,
    {
        cs.push(c);
    }
    cs
}

/// The string made of the characters of `cs` from `from` up to `to`.
pub fn string_of(cs: &Vec<char>, from: usize, to: usize) -> (s: String)
    requires
        from <= to <= cs.len(),
    ensures
        s@ == cs@.subrange(from as int, to as int),
{
    let mut s = String::new();
    let mut i: usize = from;
    while i < to
        invariant
            from <= i <= to <= cs.len(),
            s@ == cs@.subrange(from as int, i as int),
        decreases to - i,
    {
        s.push(cs[i]);
        i += 1;
    }
    s
}


/// Tells whether `p` occurs in `cs` at `i`.
pub fn matches_at(cs: &Vec<char>, p: &Vec<char>, i: usize) -> (b: bool)
    requires
        i <= cs.len(),
    ensures
        b == occurs_at(cs@, p@, i as int),
{
    if p.len() > cs.len() - i {
        return false;
    }
    let mut k: usize = 0;
    while k < p.len()
        invariant
            i + p.len() <= cs.len(),
            k <= p.len(),
            forall|j: int| 0 <= j < k ==> cs@[i + j] == p@[j],
        decreases p.len() - k,
    {
        if cs[i + k] != p[k] {
            proof {
                assert(cs@.skip(i as int).take(p.len() as int)[k as int] != p@[k as int]);
            }
            return false;
        }
        k += 1;
    }
    assert(cs@.skip(i as int).take(p.len() as int) =~= p@);
    true
}

/// Index in `cs` of the first occurrence of `p` at or after `from`.
pub fn find_from(cs: &Vec<char>, p: &Vec<char>, from: usize) -> (r: Option<usize>)
    requires
        from <= cs.len(),
    ensures
        match first_index(cs@.skip(from as int), p@) {
            Some(i) => r matches Some(j) && j == from + i && 0 <= i && j + p.len() <= cs.len(),
            None => r is None,
        },
{
    let mut i: usize = from;
    let ghost rest = cs@.skip(from as int);
    assert(rest.skip(0) =~= rest);
    proof {
        lemma_first_index(rest, p@);
    }
    while i < cs.len()
        invariant
            from <= i <= cs.len(),
            rest == cs@.skip(from as int),
            match first_index(cs@.skip(i as int), p@) {
                Some(k) => first_index(rest, p@) == Some(k + (i - from)) && 0 <= k && i + k
                    + p.len() <= cs.len(),
                None => first_index(rest, p@) is None,
            },
        decreases cs.len() - i,
    {
        if matches_at(cs, p, i) {
            return Some(i);
        }
        proof {
            assert(cs@.skip(i as int).skip(1) =~= cs@.skip(i + 1));
            lemma_first_index(cs@.skip(i + 1), p@);
        }
        i += 1;
    }
    if matches_at(cs, p, i) {
        return Some(i);
    }
    None
}

/// Tells whether `s` begins with `p`.
pub fn starts_with(s: &str, p: &str) -> (b: bool)
    ensures
        b == begins_with(s@, p@),
{
    let cs = chars_of(s);
    let ps = chars_of(p);
    assert(cs@.skip(0) =~= cs@);
    matches_at(&cs, &ps, 0)
}

/// `s` without the prefix `p`, where it begins with it.
pub fn strip_prefix(s: &str, p: &str) -> (r: Option<String>)
    ensures
        match r {
            Some(rest) => begins_with(s@, p@) && rest@ == s@.skip(p@.len() as int),
            None => !begins_with(s@, p@),
        },
{
    let cs = chars_of(s);
    let ps = chars_of(p);
    assert(cs@.skip(0) =~= cs@);
    if matches_at(&cs, &ps, 0) {
        Some(string_of(&cs, ps.len(), cs.len()))
    } else {
        None
    }
}

/// Tells whether `p` occurs in `s`.
pub fn contains(s: &str, p: &str) -> (b: bool)
    ensures
        b == contains_text(s@, p@),
{
    let cs = chars_of(s);
    let ps = chars_of(p);
    proof {
        assert(cs@.skip(0) =~= cs@);
        lemma_first_index(cs@, ps@);
    }
    match find_from(&cs, &ps, 0) {
        Some(_) => true,
        None => false,
    }
}

/// `s` with every occurrence of `p` replaced by `r`.
pub fn replace(s: &str, p: &str, r: &str) -> (out: String)
    requires
        p@.len() > 0,
    ensures
        out@ == replaced(s@, p@, r@),
{
    let cs = chars_of(s);
    let ps = chars_of(p);
    let mut out = String::new();
    let mut i: usize = 0;
    assert(cs@.skip(0) =~= cs@);
    while i < cs.len()
        invariant
            i <= cs.len(),
            ps@.len() > 0,
            ps@ == p@,
            out@ + replaced(cs@.skip(i as int), p@, r@) == replaced(cs@, p@, r@),
        decreases cs.len() - i,
    {
        let ghost rest = cs@.skip(i as int);
        let ghost before = out@;
        if matches_at(&cs, &ps, i) {
            out.append(r);
            assert(rest.skip(p@.len() as int) =~= cs@.skip(i + p@.len()));
            assert(before + (r@ + replaced(rest.skip(p@.len() as int), p@, r@)) =~= out@
                + replaced(rest.skip(p@.len() as int), p@, r@));
            i += ps.len();
        } else {
            out.push(cs[i]);
            assert(rest.skip(1) =~= cs@.skip(i + 1));
            assert(before + (seq![rest[0]] + replaced(rest.skip(1), p@, r@)) =~= out@ + replaced(
                rest.skip(1),
                p@,
                r@,
            ));
            i += 1;
        }
    }
    assert(out@ + replaced(cs@.skip(i as int), p@, r@) =~= out@);
    out
}

/// The pieces of `s` between the occurrences of `sep`.
pub fn split(s: &str, sep: &str) -> (out: Vec<String>)
    requires
        sep@.len() > 0,
    ensures
        views(out@) == pieces(s@, sep@),
        out.len() > 0,
{
    let cs = chars_of(s);
    let ps = chars_of(sep);
    let mut out: Vec<String> = Vec::new();
    let mut i: usize = 0;
    assert(cs@.skip(0) =~= cs@);
    assert(views(out@) + pieces(cs@, sep@) =~= pieces(cs@, sep@));
    loop
        invariant_except_break
            i <= cs.len(),
            ps@.len() > 0,
            ps@ == sep@,
            views(out@) + pieces(cs@.skip(i as int), sep@) == pieces(cs@, sep@),
        ensures
            views(out@) == pieces(cs@, sep@),
            out.len() > 0,
        decreases cs.len() - i,
    {
        let ghost rest = cs@.skip(i as int);
        let ghost before = views(out@);
        match find_from(&cs, &ps, i) {
            Some(j) => {
                let piece = string_of(&cs, i, j);
                assert(piece@ =~= rest.take(j - i));
                assert(rest.skip(j - i + sep@.len()) =~= cs@.skip(j + sep@.len()));
                out.push(piece);
                assert(views(out@) =~= before.push(piece@));
                assert(before + (seq![piece@] + pieces(cs@.skip(j + sep@.len()), sep@)) =~= views(
                    out@,
                ) + pieces(cs@.skip(j + sep@.len()), sep@));
                i = j + ps.len();
            },
            None => {
                let piece = string_of(&cs, i, cs.len());
                assert(piece@ =~= rest);
                out.push(piece);
                assert(views(out@) =~= before.push(piece@));
                assert(before + seq![piece@] =~= views(out@));
                break;
            },
        }
    }
    out
}

/// The strings of `parts` in order, with `sep` between neighbours.
pub fn join(parts: &Vec<String>, sep: &str) -> (out: String)
    ensures
        out@ == joined(views(parts@), sep@),
{
    let mut out = String::new();
    let mut i: usize = 0;
    while i < parts.len()
        invariant
            i <= parts.len(),
            out@ == joined(views(parts@).take(i as int), sep@),
        decreases parts.len() - i,
    {
        let ghost done = views(parts@).take(i as int);
        let ghost next = views(parts@).take(i + 1);
        assert(next.drop_last() =~= done);
        assert(next.last() == parts@[i as int]@);
        if i > 0 {
            out.append(sep);
        }
        out.append(&parts[i]);
        assert(out@ =~= joined(next, sep@));
        i += 1;
    }
    assert(views(parts@).take(i as int) =~= views(parts@));
    out
}

/// `s` without the copies of `p` that it begins with.
pub fn trim_start_matches(s: &str, p: &str) -> (out: String)
    requires
        p@.len() > 0,
    ensures
        out@ == without_leading(s@, p@),
{
    let cs = chars_of(s);
    let ps = chars_of(p);
    let mut from: usize = 0;
    assert(cs@.skip(0) =~= cs@);
    while matches_at(&cs, &ps, from)
        invariant
            from <= cs.len(),
            ps@ == p@,
            p@.len() > 0,
            without_leading(cs@.skip(from as int), p@) == without_leading(cs@, p@),
        decreases cs.len() - from,
    {
        assert(cs@.skip(from as int).skip(p@.len() as int) =~= cs@.skip(from + p@.len()));
        from += ps.len();
    }
    assert(cs@.skip(from as int) =~= cs@.subrange(from as int, cs.len() as int));
    string_of(&cs, from, cs.len())
}

/// The words of `s`: its longest runs of characters without white space.
pub fn split_whitespace(s: &str) -> (out: Vec<String>)
    ensures
        views(out@) == words(s@),
{
    let cs = chars_of(s);
    let mut out: Vec<String> = Vec::new();
    let mut i: usize = 0;
    assert(cs@.skip(0) =~= cs@);
    assert(views(out@) + words(cs@) =~= words(cs@));
    while i < cs.len()
        invariant
            i <= cs.len(),
            views(out@) + words(cs@.skip(i as int)) == words(cs@),
        decreases cs.len() - i,
    {
        let ghost rest = cs@.skip(i as int);
        if cs[i].is_whitespace() {
            assert(rest.skip(1) =~= cs@.skip(i + 1));
            i += 1;
        } else {
            let ghost before = views(out@);
            let mut j: usize = i + 1;
            proof {
                lemma_word_length(rest);
                assert(rest.skip(1) =~= cs@.skip(j as int));
            }
            while j < cs.len() && !cs[j].is_whitespace()
                invariant
                    i < j <= cs.len(),
                    word_length(cs@.skip(i as int)) == (j - i) + word_length(cs@.skip(j as int)),
                decreases cs.len() - j,
            {
                assert(cs@.skip(j as int).skip(1) =~= cs@.skip(j + 1));
                j += 1;
            }
            let word = string_of(&cs, i, j);
            assert(word@ =~= rest.take(j - i));
            assert(rest.skip(j - i) =~= cs@.skip(j as int));
            out.push(word);
            assert(views(out@) =~= before.push(word@));
            assert(before + (seq![word@] + words(cs@.skip(j as int))) =~= views(out@) + words(
                cs@.skip(j as int),
            ));
            i = j;
        }
    }
    assert(views(out@) + words(cs@.skip(i as int)) =~= views(out@));
    out
}

/// Tells whether two strings hold the same characters.
pub fn same_text(a: &str, b: &str) -> (r: bool)
    ensures
        r == (a@ == b@),
{
    a.to_owned() == b.to_owned()
}

} // verus!
