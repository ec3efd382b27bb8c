use view_tree_lsp::index::ProjectData;
use view_tree_lsp::parse::parse_declaration_document;

fn doc(lines: &[&str]) -> Vec<Vec<u8>> {
    lines.iter().map(|s| s.as_bytes().to_vec()).collect()
}

fn b(s: &str) -> Vec<u8> {
    s.as_bytes().to_vec()
}

fn parsed(lines: &[&str]) -> ProjectData {
    let mut data = ProjectData::new();
    parse_declaration_document(&doc(lines), &mut data);
    data
}

fn sorted(mut v: Vec<Vec<u8>>) -> Vec<Vec<u8>> {
    v.sort();
    v
}

#[test]
fn empty_document_yields_empty_index() {
    let data = parsed(&[]);
    assert_eq!(data.all_components().len(), 0);
    assert_eq!(data.component_count(), 0);
    assert_eq!(data.declared_count(), 0);
}

#[test]
fn no_declaration_lines_yield_empty_index() {
    let data = parsed(&["\tfoo bar", "hello world", "\t\ttitle <= Title", "  spaced out"]);
    assert_eq!(data.all_components().len(), 0);
    assert_eq!(data.declared_count(), 0);
}

#[test]
fn single_declaration_is_indexed() {
    let data = parsed(&["$my_component $mol_view"]);
    assert_eq!(data.all_components(), vec![b("$my_component")]);
    assert_eq!(data.declared_count(), 1);
    assert_eq!(data.properties_of(&b("$my_component")).len(), 0);
}

#[test]
fn plain_properties_are_collected() {
    let data = parsed(&["$card $mol_view", "\ttitle \\Hello", "\tsub /"]);
    assert_eq!(
        sorted(data.properties_of(&b("$card"))),
        vec![b("sub"), b("title")]
    );
}

#[test]
fn binding_marker_suppresses_plain_and_fires_binding() {
    let data = parsed(&["$card $mol_view", "\t\ttitle <= Title"]);
    let props = data.properties_of(&b("$card"));
    assert!(props.contains(&b("Title")));
    assert!(!props.contains(&b("title")));
    assert_eq!(props.len(), 1);
}

#[test]
fn two_way_marker_adds_no_binding_target() {
    // After the two-way marker the byte following "<=" is ">", not
    // whitespace, so the binding extraction does not fire; the plain
    // extraction is suppressed by the marker's presence.
    let data = parsed(&["$card $mol_view", "\tvalue <=> Shared"]);
    assert_eq!(data.properties_of(&b("$card")).len(), 0);
}

#[test]
fn reserved_literals_are_not_properties() {
    let data = parsed(&["$card $mol_view", "\tnull", "\ttrue", "\tfalse", "\treal"]);
    assert_eq!(data.properties_of(&b("$card")), vec![b("real")]);
}

#[test]
fn binding_target_that_is_reserved_is_dropped() {
    let data = parsed(&["$card $mol_view", "\tenabled <= true ok"]);
    // "enabled" is suppressed by the marker; the bound "true" is a
    // reserved literal and never enters a property set.
    assert_eq!(data.properties_of(&b("$card")).len(), 0);
}

#[test]
fn sigil_tokens_are_not_properties() {
    let data = parsed(&["$card $mol_view", "\t$inner $mol_button"]);
    assert_eq!(data.properties_of(&b("$card")).len(), 0);
    // The indented sigil line is not a declaration either.
    assert_eq!(data.all_components(), vec![b("$card")]);
}

#[test]
fn properties_attach_to_nearest_declaration() {
    let data = parsed(&[
        "$first $mol_view",
        "\tone /",
        "$second $mol_view",
        "\ttwo /",
    ]);
    assert_eq!(data.properties_of(&b("$first")), vec![b("one")]);
    assert_eq!(data.properties_of(&b("$second")), vec![b("two")]);
}

#[test]
fn properties_before_any_declaration_are_dropped() {
    let data = parsed(&["\tlost /", "$card $mol_view", "\tkept /"]);
    assert_eq!(data.all_components(), vec![b("$card")]);
    assert_eq!(data.properties_of(&b("$card")), vec![b("kept")]);
}

#[test]
fn repeated_declaration_is_idempotent() {
    let data = parsed(&["$card $mol_view", "\tone /", "$card $mol_view", "\ttwo /"]);
    assert_eq!(data.all_components(), vec![b("$card")]);
    assert_eq!(sorted(data.properties_of(&b("$card"))), vec![b("one"), b("two")]);
}

#[test]
fn repeated_property_is_idempotent() {
    let data = parsed(&["$card $mol_view", "\ttitle /", "\ttitle /"]);
    assert_eq!(data.properties_of(&b("$card")), vec![b("title")]);
}

#[test]
fn parsing_twice_equals_parsing_once() {
    let lines = [
        "$card $mol_view",
        "\ttitle <= Title",
        "\tsub /",
        "$row $mol_list",
        "\trows /",
        "\t\tcontent <= Rows",
    ];
    let once = parsed(&lines);
    let mut twice = ProjectData::new();
    parse_declaration_document(&doc(&lines), &mut twice);
    parse_declaration_document(&doc(&lines), &mut twice);
    assert_eq!(
        sorted(once.all_components()),
        sorted(twice.all_components())
    );
    for comp in once.all_components() {
        assert_eq!(
            sorted(once.properties_of(&comp)),
            sorted(twice.properties_of(&comp))
        );
    }
    assert_eq!(once.declared_count(), twice.declared_count());
}

#[test]
fn question_mark_and_star_extend_identifiers() {
    let data = parsed(&["$card $mol_view", "\ttitle? \\x", "\tmulti* /"]);
    assert_eq!(
        sorted(data.properties_of(&b("$card"))),
        vec![b("multi*"), b("title?")]
    );
}

#[test]
fn space_indentation_counts_as_indentation() {
    let data = parsed(&["$card $mol_view", "  padded /"]);
    assert_eq!(data.properties_of(&b("$card")), vec![b("padded")]);
}

#[test]
fn binding_regex_backtracks_to_later_marker() {
    // The first marker is not followed by whitespace; the second is.
    let data = parsed(&["$card $mol_view", "\ta <=b <= c"]);
    assert_eq!(data.properties_of(&b("$card")), vec![b("c")]);
}
