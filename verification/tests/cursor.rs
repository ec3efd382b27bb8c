use view_tree_lsp::context::classify;
use view_tree_lsp::context::find_enclosing_component;
use view_tree_lsp::context::CursorContext;

fn doc(lines: &[&str]) -> Vec<Vec<u8>> {
    lines.iter().map(|s| s.as_bytes().to_vec()).collect()
}

fn b(s: &str) -> Vec<u8> {
    s.as_bytes().to_vec()
}

#[test]
fn cursor_in_component_name() {
    // Cursor right after "$my_" on a root line.
    let line = b("$my_component $mol_view");
    assert_eq!(classify(&line, 4), CursorContext::ComponentName);
}

#[test]
fn cursor_in_indented_property_position() {
    // Tab-indented line, cursor at the end.
    let line = b("\tsub /");
    assert_eq!(classify(&line, line.len()), CursorContext::PropertyName);
}

#[test]
fn cursor_in_extends_position() {
    let line = b("$my_component $mol_view");
    // Past the space the trimmed prefix no longer starts at the sigil?
    // It does: rule order puts the sigil-prefix rule first.
    assert_eq!(classify(&line, line.len()), CursorContext::ComponentName);
    // A root line not starting with the sigil, with a space before the
    // cursor, is an extends position.
    let line2 = b("my_component $mol");
    assert_eq!(classify(&line2, line2.len()), CursorContext::ComponentExtends);
}

#[test]
fn cursor_on_empty_line_is_component_name() {
    let line = b("");
    assert_eq!(classify(&line, 0), CursorContext::ComponentName);
}

#[test]
fn cursor_on_bare_root_word_is_component_name() {
    let line = b("my_comp");
    assert_eq!(classify(&line, 3), CursorContext::ComponentName);
}

#[test]
fn cursor_after_binding_marker() {
    let line = b("\ttitle <= ");
    assert_eq!(classify(&line, line.len()), CursorContext::PropertyBinding);
}

#[test]
fn binding_rule_beats_indentation_rule() {
    let line = b("\t\tvalue <=> Shared");
    assert_eq!(classify(&line, line.len()), CursorContext::PropertyBinding);
}

#[test]
fn offset_past_line_end_is_clamped() {
    let line = b("\tsub /");
    assert_eq!(classify(&line, 1000), CursorContext::PropertyName);
    let root = b("$comp");
    assert_eq!(classify(&root, 1000), CursorContext::ComponentName);
}

#[test]
fn classification_is_total_over_samples() {
    // Every (line, offset) pair yields exactly one of the five kinds.
    let lines = [
        "$comp $base",
        "\tprop /",
        "\t\ttitle <= Title",
        "  spaced",
        "plain words here",
        "",
        "\t",
    ];
    for text in lines.iter() {
        let line = b(text);
        for offset in 0..=line.len() + 2 {
            let kind = classify(&line, offset);
            let known = matches!(
                kind,
                CursorContext::ComponentName
                    | CursorContext::ComponentExtends
                    | CursorContext::PropertyBinding
                    | CursorContext::PropertyName
                    | CursorContext::Value
            );
            assert!(known);
        }
    }
}

#[test]
fn enclosing_none_on_non_declaration_first_line() {
    // Line 0 is not a declaration line and nothing precedes it.
    let lines = doc(&["\tsub /"]);
    assert_eq!(find_enclosing_component(&lines, 0), None);
}

#[test]
fn enclosing_component_on_declaration_line_itself() {
    let lines = doc(&["$card $mol_view"]);
    assert_eq!(find_enclosing_component(&lines, 0), Some(b("$card")));
}

#[test]
fn enclosing_component_found_upward() {
    let lines = doc(&["$card $mol_view", "\tsub /", "\t\ttitle \\Hi"]);
    assert_eq!(find_enclosing_component(&lines, 2), Some(b("$card")));
}

#[test]
fn enclosing_component_is_nearest_declaration() {
    let lines = doc(&["$first $mol_view", "\tone /", "$second $mol_view", "\ttwo /"]);
    assert_eq!(find_enclosing_component(&lines, 3), Some(b("$second")));
    assert_eq!(find_enclosing_component(&lines, 1), Some(b("$first")));
}

#[test]
fn enclosing_skips_out_of_range_lines() {
    let lines = doc(&["$card $mol_view", "\tsub /"]);
    assert_eq!(find_enclosing_component(&lines, 99), Some(b("$card")));
    let empty: Vec<Vec<u8>> = Vec::new();
    assert_eq!(find_enclosing_component(&empty, 0), None);
}

#[test]
fn enclosing_none_when_no_declaration_exists() {
    let lines = doc(&["\tone /", "plain", "\ttwo /"]);
    assert_eq!(find_enclosing_component(&lines, 2), None);
}
