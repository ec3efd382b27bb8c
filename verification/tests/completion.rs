use view_tree_lsp::complete::completion_items;
use view_tree_lsp::complete::generate;
use view_tree_lsp::complete::CandidateKind;
use view_tree_lsp::complete::CompletionCandidate;
use view_tree_lsp::complete::RANK_LOW;
use view_tree_lsp::complete::RANK_PRIMARY;
use view_tree_lsp::complete::RANK_SECONDARY;
use view_tree_lsp::complete::RANK_TOP;
use view_tree_lsp::context::CursorContext;
use view_tree_lsp::index::ProjectData;
use view_tree_lsp::parse::parse_declaration_document;

fn b(s: &str) -> Vec<u8> {
    s.as_bytes().to_vec()
}

fn doc(lines: &[&str]) -> Vec<Vec<u8>> {
    lines.iter().map(|s| s.as_bytes().to_vec()).collect()
}

fn sample_index() -> ProjectData {
    let mut data = ProjectData::new();
    let lines = doc(&[
        "$a $mol_view",
        "\tx /",
        "\ty /",
        "$b $mol_view",
        "\ty /",
        "\tz /",
    ]);
    parse_declaration_document(&lines, &mut data);
    data
}

fn labels(items: &[CompletionCandidate]) -> Vec<Vec<u8>> {
    items.iter().map(|c| c.label.clone()).collect()
}

fn sorted(mut v: Vec<Vec<u8>>) -> Vec<Vec<u8>> {
    v.sort();
    v
}

#[test]
fn binding_context_always_yields_four_candidates() {
    let empty = ProjectData::new();
    let full = sample_index();
    for data in [&empty, &full] {
        let items = generate(CursorContext::PropertyBinding, None, data);
        assert_eq!(items.len(), 4);
        assert_eq!(labels(&items), vec![b("<="), b("<=>"), b("^"), b("*")]);
        for item in &items {
            assert!(matches!(item.kind, CandidateKind::Operator));
            assert!(item.detail.is_some());
        }
    }
    // The enclosing component makes no difference either.
    let items = generate(CursorContext::PropertyBinding, Some(&b("$a")), &full);
    assert_eq!(items.len(), 4);
}

#[test]
fn unknown_component_falls_back_to_property_union() {
    let data = sample_index();
    let items = generate(CursorContext::PropertyName, None, &data);
    // The union {x, y, z}, each once, plus the empty-list marker.
    assert_eq!(items.len(), 4);
    let last = items.last().unwrap();
    assert_eq!(last.label, b("/"));
    assert_eq!(last.rank, RANK_TOP);
    assert_eq!(last.detail.as_ref().unwrap(), &b("Empty list"));
    let mut names = labels(&items[..items.len() - 1]);
    names.sort();
    assert_eq!(names, vec![b("x"), b("y"), b("z")]);
    for item in &items[..items.len() - 1] {
        assert_eq!(item.rank, RANK_SECONDARY);
        assert!(matches!(item.kind, CandidateKind::Property));
        assert!(item.detail.is_none());
    }
}

#[test]
fn known_component_lists_its_own_properties() {
    let data = sample_index();
    let items = generate(CursorContext::PropertyName, Some(&b("$a")), &data);
    assert_eq!(items.len(), 3);
    assert_eq!(sorted(labels(&items[..2])), vec![b("x"), b("y")]);
    for item in &items[..2] {
        assert_eq!(item.rank, RANK_PRIMARY);
        assert_eq!(item.detail.as_ref().unwrap(), &b("Property of $a"));
    }
    assert_eq!(items[2].label, b("/"));
}

#[test]
fn unknown_enclosing_component_yields_only_the_marker() {
    let data = sample_index();
    let items = generate(CursorContext::PropertyName, Some(&b("$nope")), &data);
    assert_eq!(items.len(), 1);
    assert_eq!(items[0].label, b("/"));
}

#[test]
fn component_name_context_lists_all_components() {
    let data = sample_index();
    for ctx in [CursorContext::ComponentName, CursorContext::ComponentExtends] {
        let items = generate(ctx, None, &data);
        assert_eq!(sorted(labels(&items)), vec![b("$a"), b("$b")]);
        for item in &items {
            assert_eq!(item.rank, RANK_PRIMARY);
            assert!(matches!(item.kind, CandidateKind::Component));
            assert_eq!(item.insert_text, item.label);
        }
    }
}

#[test]
fn value_context_lists_literals_then_components() {
    let data = sample_index();
    let items = generate(CursorContext::Value, None, &data);
    assert_eq!(items.len(), 8);
    assert_eq!(
        labels(&items[..6]),
        vec![b("null"), b("true"), b("false"), b("\\"), b("@\\"), b("*")]
    );
    assert_eq!(items[0].detail.as_ref().unwrap(), &b("Null value"));
    // The string templates insert a two-line skeleton.
    assert_eq!(items[3].insert_text, b("\\\n\t\\"));
    assert_eq!(items[4].insert_text, b("@\\\n\t\\"));
    assert_eq!(items[5].detail.as_ref().unwrap(), &b("Dictionary marker"));
    for item in &items[6..] {
        assert_eq!(item.rank, RANK_LOW);
        assert!(matches!(item.kind, CandidateKind::Component));
    }
    assert_eq!(sorted(labels(&items[6..])), vec![b("$a"), b("$b")]);
}

#[test]
fn completion_for_document_position() {
    let data = sample_index();
    let lines = doc(&["$a $mol_view", "\tsub /", "\t\ttitle \\Hello"]);
    // Cursor on the indented line: properties of the enclosing $a.
    let items = completion_items(&lines, 1, 5, &data);
    assert_eq!(sorted(labels(&items[..items.len() - 1])), vec![b("x"), b("y")]);
    // Cursor past the last line: nothing.
    let items = completion_items(&lines, 7, 0, &data);
    assert_eq!(items.len(), 0);
}

#[test]
fn completion_on_root_line_offers_components() {
    let data = sample_index();
    let lines = doc(&["$a $mol_view", "\tsub /"]);
    let items = completion_items(&lines, 0, 4, &data);
    assert_eq!(sorted(labels(&items)), vec![b("$a"), b("$b")]);
}
