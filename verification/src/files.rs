//! The files that a bot attaches to its answer, and the references to them in
//! the text of the answer.
use crate::text::{
    contains, contains_text, lemma_nothing_to_replace, replace, replaced,
    same_text, views,
};
use crate::types::{FileData, FileDataView};
use vstd::prelude::*;

verus! {

/// A file under the name by which the answer refers to it.
#[derive(Debug, PartialEq, Eq)]
pub struct FileRef {
    /// The name of the reference.
    pub ref_id: String,
    /// The file.
    pub file: FileData,
}

/// The value of a [`FileRef`].
#[verifier::ext_equal]
pub struct FileRefView {
    pub ref_id: Seq<char>,
    pub file: FileDataView,
}

impl View for FileRef {
    type V = FileRefView;

    open spec fn view(&self) -> FileRefView {
        FileRefView { ref_id: self.ref_id@, file: self.file@ }
    }
}

/// No name occurs twice.
pub open spec fn distinct(refs: Seq<FileRefView>) -> bool {
    forall|i: int, j: int|
        0 <= i < j < refs.len() ==> (#[trigger] refs[i]).ref_id != (#[trigger] refs[j]).ref_id
}

/// The place of a name.
pub open spec fn place(refs: Seq<FileRefView>, id: Seq<char>) -> Option<int>
    decreases refs.len(),
{
    if refs.len() == 0 {
        None
    } else if refs.last().ref_id == id && place(refs.drop_last(), id) is None {
        Some(refs.len() - 1)
    } else {
        place(refs.drop_last(), id)
    }
}

/// The file under a name.
pub open spec fn lookup(refs: Seq<FileRefView>, id: Seq<char>) -> Option<FileDataView> {
    match place(refs, id) {
        Some(i) => Some(refs[i].file),
        None => None,
    }
}

/// `refs` with `file` under the name `id`: in place of what stood there, or at
/// the end.
pub open spec fn with_file(
    refs: Seq<FileRefView>,
    id: Seq<char>,
    file: FileDataView,
) -> Seq<FileRefView> {
    match place(refs, id) {
        Some(i) => refs.update(i, FileRefView { ref_id: id, file }),
        None => refs.push(FileRefView { ref_id: id, file }),
    }
}

/// How a text refers to a file: its name in square brackets.
pub open spec fn marker(id: Seq<char>) -> Seq<char> {
    seq!['['] + id + seq![']']
}

/// What takes the place of a reference: the address in round brackets.
pub open spec fn link(url: Seq<char>) -> Seq<char> {
    seq!['('] + url + seq![')']
}

/// `content` with the references to the files replaced by links, one file
/// after the other.
pub open spec fn with_links(content: Seq<char>, refs: Seq<FileRefView>) -> Seq<char>
    decreases refs.len(),
{
    if refs.len() == 0 {
        content
    } else {
        replaced(
            with_links(content, refs.drop_last()),
            marker(refs.last().ref_id),
            link(refs.last().file.url),
        )
    }
}

/// Whether a text refers to one of the files.
pub open spec fn mentions(content: Seq<char>, refs: Seq<FileRefView>) -> bool {
    exists|i: int|
        0 <= i < refs.len() && contains_text(content, marker((#[trigger] refs[i]).ref_id))
}

/// A text that refers to none of the files stays as it is.
pub proof fn unmentioned_files_change_nothing(content: Seq<char>, refs: Seq<FileRefView>)
    requires
        !mentions(content, refs),
    ensures
        with_links(content, refs) == content,
    decreases refs.len(),
{
    if refs.len() > 0 {
        let before = refs.drop_last();
        assert forall|i: int| 0 <= i < before.len() implies !contains_text(
            content,
            marker((#[trigger] before[i]).ref_id),
        ) by {
            assert(before[i] == refs[i]);
        }
        unmentioned_files_change_nothing(content, before);
        assert(refs[refs.len() - 1] == refs.last());
        lemma_nothing_to_replace(
            content,
            marker(refs.last().ref_id),
            link(refs.last().file.url),
        );
    }
}

/// One more file: a text refers to one of the files where it refers to one of
/// those before or to the last.
proof fn lemma_mentions_next(content: Seq<char>, refs: Seq<FileRefView>, n: int)
    requires
        0 <= n < refs.len(),
    ensures
        mentions(content, refs.take(n + 1)) <==> mentions(content, refs.take(n)) || contains_text(
            content,
            marker(refs[n].ref_id),
        ),
{
    let before = refs.take(n);
    let after = refs.take(n + 1);
    if mentions(content, before) {
        let i = choose|i: int|
            0 <= i < before.len() && contains_text(content, marker((#[trigger] before[i]).ref_id));
        assert(after[i] == before[i]);
    }
    if mentions(content, after) {
        let i = choose|i: int|
            0 <= i < after.len() && contains_text(content, marker((#[trigger] after[i]).ref_id));
        if i < n {
            assert(before[i] == after[i]);
        }
    }
    assert(after[n] == refs[n]);
}

/// The place of a name is in range, bears the name and is the first that does.
pub proof fn lemma_place(refs: Seq<FileRefView>, id: Seq<char>)
    ensures
        match place(refs, id) {
            Some(i) => 0 <= i < refs.len() && refs[i].ref_id == id && forall|j: int|
                0 <= j < i ==> (#[trigger] refs[j]).ref_id != id,
            None => forall|j: int| 0 <= j < refs.len() ==> (#[trigger] refs[j]).ref_id != id,
        },
    decreases refs.len(),
{
    if refs.len() > 0 {
        lemma_place(refs.drop_last(), id);
        assert forall|j: int| 0 <= j < refs.len() - 1 implies refs.drop_last()[j] == #[trigger] refs[j] by {}
    }
}

/// The files of an answer by the names of their references.
#[derive(Debug, PartialEq, Eq)]
pub struct FileRefs {
    /// The files, each under its name.
    pub entries: Vec<FileRef>,
}

impl View for FileRefs {
    type V = Seq<FileRefView>;

    open spec fn view(&self) -> Seq<FileRefView> {
        views(self.entries@)
    }
}

impl FileRefs {
    /// No files.
    pub fn new() -> (r: FileRefs)
        ensures
            r@ == Seq::<FileRefView>::empty(),
            distinct(r@),
    {
        let r = FileRefs { entries: Vec::new() };
        assert(r@ =~= Seq::<FileRefView>::empty());
        r
    }

    /// Tells whether there is no file.
    pub fn is_empty(&self) -> (b: bool)
        ensures
            b == (self@.len() == 0),
    {
        self.entries.len() == 0
    }

    /// Puts a file under a name, in place of the one that stood there.
    pub fn insert(&mut self, ref_id: String, file: FileData)
        ensures
            final(self)@ == with_file(old(self)@, ref_id@, file@),
            distinct(old(self)@) ==> distinct(final(self)@),
    {
        let ghost before = self@;
        let mut i: usize = 0;
        proof {
            lemma_place(before, ref_id@);
        }
        while i < self.entries.len()
            invariant
                i <= self.entries.len(),
                self@ == before,
                before == old(self)@,
                forall|j: int| 0 <= j < i ==> (#[trigger] before[j]).ref_id != ref_id@,
            decreases self.entries.len() - i,
        {
            assert(before[i as int] == self.entries@[i as int]@);
            if same_text(&self.entries[i].ref_id, &ref_id) {
                let ghost id = ref_id@;
                let ghost f = file@;
                proof {
                    lemma_place(before, id);
                }
                self.entries[i] = FileRef { ref_id, file };
                assert(self@ =~= before.update(i as int, FileRefView { ref_id: id, file: f }));
                return;
            }
            i += 1;
        }
        let ghost id = ref_id@;
        let ghost f = file@;
        proof {
            lemma_place(before, id);
        }
        self.entries.push(FileRef { ref_id, file });
        assert(self@ =~= before.push(FileRefView { ref_id: id, file: f }));
    }
}

/// Writes the reference to a file.
pub fn marker_text(id: &str) -> (r: String)
    ensures
        r@ == marker(id@),
{
    let mut r = String::new();
    r.push('[');
    r.append(id);
    r.push(']');
    assert(r@ =~= marker(id@));
    r
}

/// Writes the link to a file.
pub fn link_text(url: &str) -> (r: String)
    ensures
        r@ == link(url@),
{
    let mut r = String::new();
    r.push('(');
    r.append(url);
    r.push(')');
    assert(r@ =~= link(url@));
    r
}

/// Replaces the references to the files by links, and tells whether there was
/// one.
pub fn replace_references(content: &str, refs: &FileRefs) -> (r: (String, bool))
    ensures
        r.0@ == with_links(content@, refs@),
        r.1 == mentions(content@, refs@),
{
    let mut processed = content.to_owned();
    let mut found: bool = false;
    let mut i: usize = 0;
    let ghost all = refs@;
    assert(all.take(0) =~= Seq::<FileRefView>::empty());
    while i < refs.entries.len()
        invariant
            i <= refs.entries.len(),
            all == refs@,
            processed@ == with_links(content@, all.take(i as int)),
            found == mentions(content@, all.take(i as int)),
        decreases refs.entries.len() - i,
    {
        let ghost next = all.take(i + 1);
        assert(next.drop_last() =~= all.take(i as int));
        assert(next.last() == refs.entries@[i as int]@);
        let img_marker = marker_text(&refs.entries[i].ref_id);
        proof {
            lemma_mentions_next(content@, all, i as int);
            if !found {
                unmentioned_files_change_nothing(content@, all.take(i as int));
            }
        }
        if contains(&processed, &img_marker) {
            let replacement = link_text(&refs.entries[i].file.url);
            processed = replace(&processed, &img_marker, &replacement);
            found = true;
        } else {
            proof {
                lemma_nothing_to_replace(
                    processed@,
                    img_marker@,
                    link(refs.entries@[i as int].file.url@),
                );
            }
        }
        i += 1;
    }
    assert(all.take(i as int) =~= all);
    (processed, found)
}

/// A file that was put under a name is found there, and the files under the
/// other names stay.
pub proof fn lookup_after_insert(
    refs: Seq<FileRefView>,
    id: Seq<char>,
    file: FileDataView,
    other: Seq<char>,
)
    ensures
        lookup(with_file(refs, id, file), other) == (if other == id {
            Some(file)
        } else {
            lookup(refs, other)
        }),
{
    let after = with_file(refs, id, file);
    lemma_place(refs, id);
    lemma_place(refs, other);
    lemma_place(after, other);
    match place(after, other) {
        Some(i) => {
            assert(after[i].ref_id == other);
            if other != id {
                assert(refs[i].ref_id == other);
                assert(place(refs, other) is Some);
                let k = place(refs, other).unwrap();
                assert(refs[k].ref_id == other);
                assert(after[k] == refs[k]);
            } else {
                match place(refs, id) {
                    Some(k) => {
                        assert(after[k].ref_id == id);
                        if i < k {
                            assert(refs[i] == after[i]);
                        }
                    },
                    None => {
                        if i < refs.len() {
                            assert(refs[i] == after[i]);
                        }
                    },
                }
            }
        },
        None => {
            match place(refs, id) {
                Some(k) => {
                    assert(after[k].ref_id == id);
                },
                None => {
                    assert(after[refs.len() as int].ref_id == id);
                },
            }
            if place(refs, other) is Some {
                let k = place(refs, other).unwrap();
                assert(after[k] == refs[k]);
            }
        },
    }
}

} // verus!
