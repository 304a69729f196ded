//! What replacing the references to files by links comes to: every reference is
//! replaced where it stands, and the order of the files has no part in it.
use crate::files::{distinct, link, marker, with_links, FileRefView};
use crate::text::{begins_with, replaced};
use crate::text_laws::{beginning_is_by_character, reads_at, stands_in};
use vstd::prelude::*;

verus! {

/// A name without brackets that open a reference or a link or close a
/// reference.
pub open spec fn plain_name(id: Seq<char>) -> bool {
    !id.contains('[') && !id.contains(']') && !id.contains('(')
}

/// Plain names, and addresses without a bracket that opens a reference.
pub open spec fn plain(refs: Seq<FileRefView>) -> bool {
    forall|i: int|
        0 <= i < refs.len() ==> plain_name((#[trigger] refs[i]).ref_id)
            && !refs[i].file.url.contains('[')
}

/// The file that a text begins with a reference to.
pub open spec fn referred(s: Seq<char>, refs: Seq<FileRefView>) -> Option<FileRefView>
    decreases refs.len(),
{
    if refs.len() == 0 {
        None
    } else if begins_with(s, marker(refs.last().ref_id)) {
        Some(refs.last())
    } else {
        referred(s, refs.drop_last())
    }
}

/// A text in which every reference is replaced by the link where it stands.
pub open spec fn linked(s: Seq<char>, refs: Seq<FileRefView>) -> Seq<char>
    decreases s.len(),
{
    if s.len() == 0 {
        s
    } else {
        match referred(s, refs) {
            Some(r) => if marker(r.ref_id).len() <= s.len() {
                link(r.file.url) + linked(s.skip(marker(r.ref_id).len() as int), refs)
            } else {
                s
            },
            None => seq![s[0]] + linked(s.skip(1), refs),
        }
    }
}

/// What it means that a text begins with a reference, or with none.
proof fn lemma_referred(s: Seq<char>, refs: Seq<FileRefView>)
    ensures
        match referred(s, refs) {
            Some(r) => refs.contains(r) && begins_with(s, marker(r.ref_id)),
            None => forall|i: int|
                0 <= i < refs.len() ==> !begins_with(s, marker((#[trigger] refs[i]).ref_id)),
        },
    decreases refs.len(),
{
    if refs.len() > 0 {
        let before = refs.drop_last();
        lemma_referred(s, before);
        if begins_with(s, marker(refs.last().ref_id)) {
            assert(refs[refs.len() - 1] == refs.last());
        } else {
            match referred(s, before) {
                Some(r) => {
                    let i = choose|i: int| 0 <= i < before.len() && before[i] == r;
                    assert(refs[i] == r);
                },
                None => {
                    assert forall|i: int| 0 <= i < refs.len() implies !begins_with(
                        s,
                        marker((#[trigger] refs[i]).ref_id),
                    ) by {
                        if i < before.len() {
                            assert(before[i] == refs[i]);
                        }
                    }
                },
            }
        }
    }
}

/// The characters of a reference that a text begins with.
proof fn lemma_marker(s: Seq<char>, id: Seq<char>)
    requires
        begins_with(s, marker(id)),
    ensures
        s.len() >= id.len() + 2,
        s[0] == '[',
        s[id.len() as int + 1] == ']',
        forall|i: int| 0 <= i < id.len() ==> s[i + 1] == #[trigger] id[i],
{
    let m = marker(id);
    assert(s.take(m.len() as int) == m);
    assert(m[0] == '[');
    assert(s[0] == s.take(m.len() as int)[0]);
    assert(s[id.len() as int + 1] == s.take(m.len() as int)[id.len() as int + 1]);
    assert forall|i: int| 0 <= i < id.len() implies s[i + 1] == #[trigger] id[i] by {
        assert(s.take(m.len() as int)[i + 1] == m[i + 1]);
    }
}

/// A text begins with at most one reference.
proof fn lemma_one_marker(s: Seq<char>, a: Seq<char>, b: Seq<char>)
    requires
        begins_with(s, marker(a)),
        begins_with(s, marker(b)),
        plain_name(a),
        plain_name(b),
    ensures
        a == b,
{
    lemma_marker(s, a);
    lemma_marker(s, b);
    if a.len() < b.len() {
        assert(b[a.len() as int] == ']');
        assert(b.contains(']'));
    } else if b.len() < a.len() {
        assert(a[b.len() as int] == ']');
        assert(a.contains(']'));
    } else {
        assert forall|i: int| 0 <= i < a.len() implies a[i] == b[i] by {
            assert(s[i + 1] == a[i]);
            assert(s[i + 1] == b[i]);
        }
        assert(a =~= b);
    }
}

/// What opens no reference is kept.
proof fn lemma_linked_keeps(x: Seq<char>, t: Seq<char>, refs: Seq<FileRefView>)
    requires
        !x.contains('['),
    ensures
        linked(x + t, refs) == x + linked(t, refs),
    decreases x.len(),
{
    if x.len() == 0 {
        assert(x + t =~= t);
        assert(x + linked(t, refs) =~= linked(t, refs));
    } else {
        let s = x + t;
        assert(s[0] == x[0]);
        lemma_referred(s, refs);
        if let Some(r) = referred(s, refs) {
            lemma_marker(s, r.ref_id);
        }
        assert(s.skip(1) =~= x.skip(1) + t);
        assert forall|i: int| 0 <= i < x.skip(1).len() implies x.skip(1)[i] != '[' by {
            assert(x.skip(1)[i] == x[i + 1]);
        }
        lemma_linked_keeps(x.skip(1), t, refs);
        assert(seq![x[0]] + (x.skip(1) + linked(t, refs)) =~= x + linked(t, refs));
    }
}

/// What opens no reference is kept when one reference is replaced.
proof fn lemma_replaced_keeps(x: Seq<char>, t: Seq<char>, id: Seq<char>, l: Seq<char>)
    requires
        !x.contains('['),
    ensures
        replaced(x + t, marker(id), l) == x + replaced(t, marker(id), l),
    decreases x.len(),
{
    if x.len() == 0 {
        assert(x + t =~= t);
        assert(x + replaced(t, marker(id), l) =~= replaced(t, marker(id), l));
    } else {
        let s = x + t;
        assert(s[0] == x[0]);
        if begins_with(s, marker(id)) {
            lemma_marker(s, id);
        }
        assert(s.skip(1) =~= x.skip(1) + t);
        assert forall|i: int| 0 <= i < x.skip(1).len() implies x.skip(1)[i] != '[' by {
            assert(x.skip(1)[i] == x[i + 1]);
        }
        lemma_replaced_keeps(x.skip(1), t, id, l);
        assert(seq![x[0]] + (x.skip(1) + replaced(t, marker(id), l)) =~= x + replaced(
            t,
            marker(id),
            l,
        ));
    }
}

/// What comes before the first link was there before.
proof fn lemma_linked_begins(s: Seq<char>, refs: Seq<FileRefView>, p: Seq<char>)
    requires
        !p.contains('('),
        begins_with(linked(s, refs), p),
    ensures
        begins_with(s, p),
    decreases p.len(),
{
    let out = linked(s, refs);
    if p.len() == 0 {
        assert(s.take(0) =~= p);
    } else {
        assert(out.take(p.len() as int)[0] == p[0]);
        assert(out[0] == p[0]);
        lemma_referred(s, refs);
        if s.len() > 0 {
            match referred(s, refs) {
                Some(r) => {
                    lemma_marker(s, r.ref_id);
                    assert(link(r.file.url)[0] == '(');
                    assert(out[0] == '(');
                    assert(p.contains('('));
                },
                None => {
                    let rest = linked(s.skip(1), refs);
                    assert(out == seq![s[0]] + rest);
                    assert(rest.take(p.len() - 1) =~= p.skip(1)) by {
                        assert forall|i: int| 0 <= i < p.len() - 1 implies rest[i] == p[i + 1] by {
                            assert(out[i + 1] == rest[i]);
                            assert(out.take(p.len() as int)[i + 1] == p[i + 1]);
                        }
                    }
                    assert forall|i: int| 0 <= i < p.skip(1).len() implies p.skip(1)[i] != '(' by {
                        assert(p.skip(1)[i] == p[i + 1]);
                    }
                    lemma_linked_begins(s.skip(1), refs, p.skip(1));
                    assert(s.take(p.len() as int) =~= p) by {
                        assert forall|i: int| 0 < i < p.len() implies s[i] == p[i] by {
                            assert(s.skip(1).take(p.len() - 1)[i - 1] == p.skip(1)[i - 1]);
                        }
                    }
                },
            }
        }
    }
}

/// One more file: replacing its references after the others is replacing all
/// of them where they stand.
proof fn lemma_one_more(s: Seq<char>, refs: Seq<FileRefView>, r: FileRefView)
    requires
        plain(refs.push(r)),
        distinct(refs.push(r)),
    ensures
        replaced(linked(s, refs), marker(r.ref_id), link(r.file.url)) == linked(s, refs.push(r)),
    decreases s.len(),
{
    let all = refs.push(r);
    let m = marker(r.ref_id);
    let l = link(r.file.url);
    assert(all.drop_last() =~= refs);
    assert(all.last() == r);
    assert(plain_name(all[refs.len() as int].ref_id));
    if s.len() > 0 {
        lemma_referred(s, refs);
        match referred(s, refs) {
            Some(q) => {
                let i = choose|i: int| 0 <= i < refs.len() && refs[i] == q;
                assert(all[i] == q);
                assert(all[i].ref_id != all[refs.len() as int].ref_id);
                if begins_with(s, m) {
                    lemma_one_marker(s, q.ref_id, r.ref_id);
                }
                lemma_marker(s, q.ref_id);
                let rest = s.skip(marker(q.ref_id).len() as int);
                let put = link(q.file.url);
                assert forall|k: int| 0 <= k < put.len() implies put[k] != '[' by {
                    if 0 < k < put.len() - 1 {
                        assert(put[k] == q.file.url[k - 1]);
                    }
                }
                lemma_replaced_keeps(put, linked(rest, refs), r.ref_id, l);
                lemma_one_more(rest, refs, r);
            },
            None => {
                if begins_with(s, m) {
                    lemma_marker(s, r.ref_id);
                    let n = m.len() as int;
                    let rest = s.skip(n);
                    let inner = r.ref_id + seq![']'];
                    assert(s.skip(1) =~= inner + rest);
                    assert forall|k: int| 0 <= k < inner.len() implies inner[k] != '[' by {
                        if k < r.ref_id.len() {
                            assert(inner[k] == r.ref_id[k]);
                        }
                    }
                    lemma_linked_keeps(inner, rest, refs);
                    let before = linked(s, refs);
                    assert(before =~= m + linked(rest, refs));
                    assert(before.take(n) =~= m);
                    assert(before.skip(n) =~= linked(rest, refs));
                    lemma_one_more(rest, refs, r);
                } else {
                    let before = linked(s, refs);
                    let rest = linked(s.skip(1), refs);
                    assert(before == seq![s[0]] + rest);
                    if begins_with(before, m) {
                        assert forall|k: int| 0 <= k < m.len() implies m[k] != '(' by {
                            if 0 < k < m.len() - 1 {
                                assert(m[k] == r.ref_id[k - 1]);
                            }
                        }
                        lemma_linked_begins(s, refs, m);
                    }
                    assert(before.skip(1) =~= rest);
                    lemma_one_more(s.skip(1), refs, r);
                }
            },
        }
    } else {
        assert(linked(s, refs) == s);
    }
}

/// Without files nothing is replaced.
proof fn lemma_no_files(s: Seq<char>)
    ensures
        linked(s, Seq::empty()) == s,
    decreases s.len(),
{
    if s.len() > 0 {
        lemma_no_files(s.skip(1));
        assert(seq![s[0]] + s.skip(1) =~= s);
    }
}

/// Replacing the references of one file after the other replaces each reference
/// where it stands in the text, and nothing else.
pub proof fn references_become_links(content: Seq<char>, refs: Seq<FileRefView>)
    requires
        distinct(refs),
        plain(refs),
    ensures
        with_links(content, refs) == linked(content, refs),
    decreases refs.len(),
{
    if refs.len() == 0 {
        assert(refs =~= Seq::empty());
        lemma_no_files(content);
    } else {
        let before = refs.drop_last();
        assert(before.push(refs.last()) =~= refs);
        assert(plain(before)) by {
            assert forall|i: int| 0 <= i < before.len() implies plain_name(
                (#[trigger] before[i]).ref_id,
            ) && !before[i].file.url.contains('[') by {
                assert(before[i] == refs[i]);
            }
        }
        assert(distinct(before)) by {
            assert forall|i: int, j: int| 0 <= i < j < before.len() implies (
            #[trigger] before[i]).ref_id != (#[trigger] before[j]).ref_id by {
                assert(refs[i].ref_id != refs[j].ref_id);
            }
        }
        references_become_links(content, before);
        lemma_one_more(content, before, refs.last());
    }
}

/// Two lists of the same files find the same references.
proof fn lemma_same_links(s: Seq<char>, refs: Seq<FileRefView>, other: Seq<FileRefView>)
    requires
        distinct(refs),
        distinct(other),
        plain(refs),
        forall|r: FileRefView| refs.contains(r) <==> other.contains(r),
    ensures
        linked(s, refs) == linked(s, other),
    decreases s.len(),
{
    if s.len() > 0 {
        lemma_referred(s, refs);
        lemma_referred(s, other);
        match (referred(s, refs), referred(s, other)) {
            (Some(p), Some(q)) => {
                assert(refs.contains(q));
                let i = choose|i: int| 0 <= i < refs.len() && refs[i] == p;
                let j = choose|j: int| 0 <= j < refs.len() && refs[j] == q;
                assert(plain_name(refs[i].ref_id) && plain_name(refs[j].ref_id));
                lemma_one_marker(s, p.ref_id, q.ref_id);
                assert(i == j);
                lemma_marker(s, p.ref_id);
                lemma_same_links(s.skip(marker(p.ref_id).len() as int), refs, other);
            },
            (Some(p), None) => {
                assert(other.contains(p));
                let i = choose|i: int| 0 <= i < other.len() && other[i] == p;
                assert(!begins_with(s, marker(other[i].ref_id)));
            },
            (None, Some(q)) => {
                assert(refs.contains(q));
                let i = choose|i: int| 0 <= i < refs.len() && refs[i] == q;
                assert(!begins_with(s, marker(refs[i].ref_id)));
            },
            (None, None) => {
                lemma_same_links(s.skip(1), refs, other);
            },
        }
    }
}

/// The order in which files are gone through has no influence on the text, as
/// long as no name or address can be taken for a part of a reference.
pub proof fn order_of_files_does_not_matter(
    content: Seq<char>,
    refs: Seq<FileRefView>,
    other: Seq<FileRefView>,
)
    requires
        distinct(refs),
        distinct(other),
        plain(refs),
        forall|r: FileRefView| refs.contains(r) <==> other.contains(r),
    ensures
        with_links(content, refs) == with_links(content, other),
{
    assert(plain(other)) by {
        assert forall|i: int| 0 <= i < other.len() implies plain_name((#[trigger] other[i]).ref_id)
            && !other[i].file.url.contains('[') by {
            assert(other.contains(other[i]));
            let k = choose|k: int| 0 <= k < refs.len() && refs[k] == other[i];
            assert(refs.contains(other[i]));
            assert(plain_name(refs[k].ref_id));
        }
    }
    references_become_links(content, refs);
    references_become_links(content, other);
    lemma_same_links(content, refs, other);
}

/// In a text with links no reference stands at a given index.
proof fn lemma_no_reference_at(s: Seq<char>, refs: Seq<FileRefView>, k: int, i: int)
    requires
        plain(refs),
        0 <= k < refs.len(),
    ensures
        !reads_at(linked(s, refs), marker(refs[k].ref_id), i),
    decreases s.len(),
{
    let id = refs[k].ref_id;
    let m = marker(id);
    let out = linked(s, refs);
    assert(m[0] == '[');
    if s.len() > 0 && reads_at(out, m, i) {
        assert(out[i + 0] == m[0]);
        lemma_referred(s, refs);
        match referred(s, refs) {
            Some(r) => {
                lemma_marker(s, r.ref_id);
                let j = choose|j: int| 0 <= j < refs.len() && refs[j] == r;
                assert(plain_name(refs[j].ref_id));
                let put = link(r.file.url);
                let rest = linked(s.skip(marker(r.ref_id).len() as int), refs);
                assert(out == put + rest);
                if i < put.len() {
                    if 0 < i < put.len() - 1 {
                        assert(put[i] == r.file.url[i - 1]);
                    }
                    assert(put[i] != '[');
                } else {
                    assert forall|c: int| 0 <= c < m.len() implies rest[i - put.len() + c]
                        == #[trigger] m[c] by {
                        assert(out[i + c] == m[c]);
                    }
                    assert(reads_at(rest, m, i - put.len()));
                    lemma_no_reference_at(
                        s.skip(marker(r.ref_id).len() as int),
                        refs,
                        k,
                        i - put.len(),
                    );
                }
            },
            None => {
                let rest = linked(s.skip(1), refs);
                assert(out == seq![s[0]] + rest);
                if i == 0 {
                    assert forall|c: int| 0 <= c < m.len() implies out[c] == #[trigger] m[c] by {
                        assert(out[i + c] == m[c]);
                    }
                    beginning_is_by_character(out, m);
                    assert(plain_name(refs[k].ref_id));
                    assert forall|c: int| 0 <= c < m.len() implies m[c] != '(' by {
                        if 0 < c < m.len() - 1 {
                            assert(m[c] == id[c - 1]);
                        }
                    }
                    lemma_linked_begins(s, refs, m);
                } else {
                    assert forall|c: int| 0 <= c < m.len() implies rest[i - 1 + c]
                        == #[trigger] m[c] by {
                        assert(out[i + c] == m[c]);
                    }
                    assert(reads_at(rest, m, i - 1));
                    lemma_no_reference_at(s.skip(1), refs, k, i - 1);
                }
            },
        }
    }
}

/// No reference to a file is left in a text with links: `[name]` stands nowhere
/// in it.
pub proof fn no_reference_is_left(content: Seq<char>, refs: Seq<FileRefView>)
    requires
        distinct(refs),
        plain(refs),
    ensures
        forall|k: int|
            0 <= k < refs.len() ==> !stands_in(
                with_links(content, refs),
                seq!['['] + (#[trigger] refs[k]).ref_id + seq![']'],
            ),
{
    references_become_links(content, refs);
    assert forall|k: int| 0 <= k < refs.len() implies !stands_in(
        with_links(content, refs),
        seq!['['] + (#[trigger] refs[k]).ref_id + seq![']'],
    ) by {
        let m = marker(refs[k].ref_id);
        if stands_in(linked(content, refs), m) {
            let i = choose|i: int| #[trigger] reads_at(linked(content, refs), m, i);
            lemma_no_reference_at(content, refs, k, i);
        }
    }
}

/// The first `[` of a text decides: where it opens a reference to a file, the
/// address in round brackets takes the place of the reference, and else it
/// stays. What comes before it stays too, and what follows is treated alike.
pub proof fn references_are_replaced_where_they_stand(
    a: Seq<char>,
    b: Seq<char>,
    refs: Seq<FileRefView>,
)
    requires
        distinct(refs),
        plain(refs),
        !a.contains('['),
    ensures
        with_links(a, refs) == a,
        forall|k: int|
            0 <= k < refs.len() ==> with_links(
                a + seq!['['] + (#[trigger] refs[k]).ref_id + seq![']'] + b,
                refs,
            ) == a + seq!['('] + refs[k].file.url + seq![')'] + with_links(b, refs),
        (forall|k: int|
            0 <= k < refs.len() ==> !reads_at(b, (#[trigger] refs[k]).ref_id + seq![']'], 0))
            ==> with_links(a + seq!['['] + b, refs) == a + seq!['['] + with_links(b, refs),
{
    references_become_links(a, refs);
    references_become_links(b, refs);
    lemma_linked_keeps(a, Seq::empty(), refs);
    assert(a + Seq::<char>::empty() =~= a);
    assert(linked(Seq::empty(), refs) == Seq::<char>::empty());
    assert forall|k: int| 0 <= k < refs.len() implies with_links(
        a + seq!['['] + (#[trigger] refs[k]).ref_id + seq![']'] + b,
        refs,
    ) == a + seq!['('] + refs[k].file.url + seq![')'] + with_links(b, refs) by {
        let m = marker(refs[k].ref_id);
        let s = m + b;
        let whole = a + seq!['['] + refs[k].ref_id + seq![']'] + b;
        assert(whole =~= a + s);
        references_become_links(whole, refs);
        lemma_linked_keeps(a, s, refs);
        assert(s.take(m.len() as int) =~= m);
        assert(s.skip(m.len() as int) =~= b);
        assert(begins_with(s, m));
        lemma_referred(s, refs);
        match referred(s, refs) {
            Some(r) => {
                let j = choose|j: int| 0 <= j < refs.len() && refs[j] == r;
                assert(plain_name(refs[j].ref_id) && plain_name(refs[k].ref_id));
                lemma_one_marker(s, r.ref_id, refs[k].ref_id);
                assert(j == k);
            },
            None => {
                assert(!begins_with(s, marker(refs[k].ref_id)));
            },
        }
        let put = link(refs[k].file.url);
        assert(linked(s, refs) == put + linked(b, refs));
        assert(a + (put + linked(b, refs)) =~= a + seq!['('] + refs[k].file.url + seq![')']
            + linked(b, refs));
    }
    if forall|k: int|
        0 <= k < refs.len() ==> !reads_at(b, (#[trigger] refs[k]).ref_id + seq![']'], 0) {
        let s = seq!['['] + b;
        let whole = a + seq!['['] + b;
        assert(whole =~= a + s);
        references_become_links(whole, refs);
        lemma_linked_keeps(a, s, refs);
        lemma_referred(s, refs);
        if let Some(r) = referred(s, refs) {
            let j = choose|j: int| 0 <= j < refs.len() && refs[j] == r;
            lemma_marker(s, r.ref_id);
            let inner = refs[j].ref_id + seq![']'];
            assert forall|c: int| 0 <= c < inner.len() implies b[0 + c] == #[trigger] inner[c] by {
                assert(b[c] == s[c + 1]);
                if c < r.ref_id.len() {
                    assert(s[c + 1] == r.ref_id[c]);
                }
            }
            assert(reads_at(b, inner, 0));
        }
        assert(s.skip(1) =~= b);
        assert(a + (seq!['['] + linked(b, refs)) =~= a + seq!['['] + linked(b, refs));
    }
}

/// Whatever the names are, the files are gone through in their order: the
/// references to one more file are replaced, by its address in round brackets,
/// in what replacing those to the others gave.
pub proof fn files_are_gone_through_in_order(
    content: Seq<char>,
    refs: Seq<FileRefView>,
    r: FileRefView,
)
    ensures
        with_links(content, Seq::empty()) == content,
        with_links(content, refs.push(r)) == replaced(
            with_links(content, refs),
            seq!['['] + r.ref_id + seq![']'],
            seq!['('] + r.file.url + seq![')'],
        ),
{
    assert(refs.push(r).drop_last() =~= refs);
}

} // verus!
