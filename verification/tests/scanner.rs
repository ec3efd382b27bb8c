use view_tree_lsp::files::classify_file;
use view_tree_lsp::files::ingest_file;
use view_tree_lsp::files::FileKind;
use view_tree_lsp::index::ProjectData;
use view_tree_lsp::refs::scan_references;
use view_tree_lsp::text::split_lines;

fn b(s: &str) -> Vec<u8> {
    s.as_bytes().to_vec()
}

fn sorted(mut v: Vec<Vec<u8>>) -> Vec<Vec<u8>> {
    v.sort();
    v
}

#[test]
fn reference_file_contributes_components_only() {
    let mut data = ProjectData::new();
    scan_references(&b("render($mol_view, $my_button)"), &mut data);
    assert_eq!(
        sorted(data.all_components()),
        vec![b("$mol_view"), b("$my_button")]
    );
    assert_eq!(data.declared_count(), 0);
    assert_eq!(data.all_known_properties().len(), 0);
}

#[test]
fn reference_scan_takes_maximal_word_runs() {
    let mut data = ProjectData::new();
    scan_references(&b("$a1_b!$x $$y $"), &mut data);
    assert_eq!(sorted(data.all_components()), vec![b("$a1_b"), b("$x"), b("$y")]);
}

#[test]
fn reference_scan_is_idempotent() {
    let mut data = ProjectData::new();
    scan_references(&b("new $mol_view()"), &mut data);
    scan_references(&b("new $mol_view()"), &mut data);
    assert_eq!(data.all_components(), vec![b("$mol_view")]);
}

#[test]
fn tree_files_are_declaration_files() {
    assert_eq!(classify_file(&b("app/widget.view.tree")), FileKind::Declaration);
    assert_eq!(classify_file(&b("widget.view.tree")), FileKind::Declaration);
}

#[test]
fn plain_tree_extension_without_pattern_is_ignored() {
    assert_eq!(classify_file(&b("notes.tree")), FileKind::Ignored);
}

#[test]
fn ts_files_are_reference_files() {
    assert_eq!(classify_file(&b("src/widget.view.ts")), FileKind::Reference);
    assert_eq!(classify_file(&b("a.ts")), FileKind::Reference);
}

#[test]
fn ambient_declaration_files_are_ignored() {
    assert_eq!(classify_file(&b("src/widget.d.ts")), FileKind::Ignored);
}

#[test]
fn files_without_matching_extension_are_ignored() {
    assert_eq!(classify_file(&b("readme.md")), FileKind::Ignored);
    assert_eq!(classify_file(&b("Makefile")), FileKind::Ignored);
    // A leading dot alone names no extension.
    assert_eq!(classify_file(&b("src/.ts")), FileKind::Ignored);
}

#[test]
fn ingest_routes_by_file_kind() {
    let mut data = ProjectData::new();
    ingest_file(
        &b("card.view.tree"),
        &b("$card $mol_view\n\ttitle <= Title\n"),
        &mut data,
    );
    ingest_file(&b("main.ts"), &b("mount($app_root)"), &mut data);
    ingest_file(&b("notes.md"), &b("$ignored_component"), &mut data);
    assert_eq!(
        sorted(data.all_components()),
        vec![b("$app_root"), b("$card")]
    );
    assert_eq!(data.properties_of(&b("$card")), vec![b("Title")]);
    assert_eq!(data.component_count(), 2);
    assert_eq!(data.declared_count(), 1);
}

#[test]
fn ingest_folds_many_files_into_one_index() {
    let mut data = ProjectData::new();
    ingest_file(&b("a.view.tree"), &b("$a $mol_view\n\tx /\n"), &mut data);
    ingest_file(&b("b.view.tree"), &b("$b $mol_view\n\tx /\n\ty /\n"), &mut data);
    ingest_file(&b("code.ts"), &b("use($a, $c)"), &mut data);
    assert_eq!(
        sorted(data.all_components()),
        vec![b("$a"), b("$b"), b("$c")]
    );
    assert_eq!(sorted(data.all_known_properties()), vec![b("x"), b("y")]);
    assert_eq!(data.declared_count(), 2);
}

#[test]
fn split_lines_handles_line_endings() {
    let lines = split_lines(&b("one\r\ntwo\nthree"));
    assert_eq!(lines, vec![b("one"), b("two"), b("three")]);
    let lines = split_lines(&b("last\n"));
    assert_eq!(lines, vec![b("last")]);
    let empty = split_lines(&b(""));
    assert_eq!(empty.len(), 0);
}

#[test]
fn windows_line_endings_parse_like_unix_ones() {
    let mut data = ProjectData::new();
    ingest_file(
        &b("card.view.tree"),
        &b("$card $mol_view\r\n\tsub /\r\n"),
        &mut data,
    );
    assert_eq!(data.all_components(), vec![b("$card")]);
    assert_eq!(data.properties_of(&b("$card")), vec![b("sub")]);
}
