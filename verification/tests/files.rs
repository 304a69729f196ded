use poe2openai::files::{link_text, marker_text, replace_references, FileRefs};
use poe2openai::types::FileData;

fn file(id: &str, url: &str) -> FileData {
    FileData {
        url: url.to_string(),
        name: "name".to_string(),
        content_type: "image/png".to_string(),
        inline_ref: id.to_string(),
    }
}

fn refs(list: &[(&str, &str)]) -> FileRefs {
    let mut refs = FileRefs::new();
    for (id, url) in list {
        refs.insert(id.to_string(), file(id, url));
    }
    refs
}

#[test]
fn references_are_replaced_by_links() {
    let known = refs(&[("a", "https://u/1"), ("b", "https://u/2")]);
    assert_eq!(
        replace_references("![x][a] [b] [a] [c]", &known),
        ("![x](https://u/1) (https://u/2) (https://u/1) [c]".to_string(), true)
    );
    assert_eq!(replace_references("[c]", &known), ("[c]".to_string(), false));
}

#[test]
fn the_order_of_plain_files_does_not_matter() {
    let there = refs(&[("a", "u1"), ("b", "u2"), ("c", "u3")]);
    let back = refs(&[("c", "u3"), ("a", "u1"), ("b", "u2")]);
    let text = "[[a]] [b][c] [d] [a";
    assert_eq!(replace_references(text, &there), replace_references(text, &back));
    assert_eq!(replace_references(text, &there).0, "[(u1)] (u2)(u3) [d] [a");
}

#[test]
fn a_later_file_takes_the_place_of_an_earlier_one() {
    let mut known = refs(&[("a", "old"), ("b", "other")]);
    assert!(!known.is_empty());
    known.insert("a".to_string(), file("a", "new"));
    assert_eq!(known.entries.len(), 2);
    assert_eq!(replace_references("[a][b]", &known).0, "(new)(other)");
}

#[test]
fn without_files_nothing_changes() {
    let none = FileRefs::new();
    assert!(none.is_empty());
    assert_eq!(replace_references("[a]", &none), ("[a]".to_string(), false));
}

#[test]
fn markers_and_links_have_their_brackets() {
    assert_eq!(marker_text("id"), "[id]");
    assert_eq!(link_text("url"), "(url)");
}

#[test]
fn a_text_mentions_a_file_where_it_stands_in_it() {
    let known = refs(&[("a", "[b]"), ("b", "u2")]);
    assert_eq!(replace_references("[b", &known), ("[b".to_string(), false));
    assert_eq!(replace_references("x[b]", &known), ("x(u2)".to_string(), true));
    assert_eq!(replace_references("[a]", &known), ("((u2))".to_string(), true));
}
