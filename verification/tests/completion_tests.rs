use mcdp_language::completion::{
    completion_context, completion_request, directory_model_names, instance_scoped_expression,
    is_resource_string_context, path_to_completion_text, port_item, resource_completion_paths,
    trigger_characters, CompletionContext, CompletionEntry, FoundFile, InstancePortInsertMode, ItemKind,
};
use mcdp_language::line_index::{LspPosition, LspRange};
use mcdp_language::PortDirection;

fn labels(items: &[CompletionEntry]) -> Vec<&str> {
    items.iter().map(|item| item.label.as_str()).collect()
}

fn position_after(source: &str, needle: &str) -> LspPosition {
    let offset = source.find(needle).expect("needle") + needle.len();
    let before = &source[..offset];
    let line = before.matches('\n').count() as u32;
    let line_start = before.rfind('\n').map_or(0, |index| index + 1);
    let character = before[line_start..].encode_utf16().count() as u32;
    LspPosition { line, character }
}

#[test]
fn options_advertise_basic_triggers() {
    assert_eq!(
        trigger_characters(),
        vec!["`", "\"", "/", " ", "+", "-", "*", "=", "<", ">", "≤", "≥"]
    );
}

#[test]
fn completions_include_top_level_document_snippets() {
    let request = completion_request("", LspPosition { line: 0, character: 0 });
    let labels = labels(&request.items);

    assert_eq!(request.context, CompletionContext::TopLevel);
    assert!(labels.contains(&"mcdp"));
    assert!(labels.contains(&"dp"));
    assert!(labels.contains(&"choose"));
    assert!(labels.contains(&"specialize"));
    let mcdp = request.items.iter().find(|item| item.label == "mcdp").expect("mcdp item");
    assert!(mcdp.snippet);
    assert_eq!(mcdp.kind, ItemKind::Snippet);
}

#[test]
fn completions_include_statement_snippets_inside_braced_body() {
    let source = "mcdp {\n  ";
    let request = completion_request(source, LspPosition { line: 1, character: 2 });
    let labels = labels(&request.items);

    assert!(labels.contains(&"provides"));
    assert!(labels.contains(&"requires"));
    assert!(labels.contains(&"sub = instance"));
    assert!(labels.contains(&"implemented-by yaml resource"));
    assert!(labels.contains(&"implements"));
    assert!(labels.contains(&"import model"));
}

#[test]
fn model_reference_context_after_backtick() {
    let source = "mcdp {\n  sub x = instance `\n}\n";
    let request = completion_request(source, LspPosition { line: 1, character: 21 });
    assert_eq!(request.context, CompletionContext::ModelReference);
    assert!(request.items.is_empty());
}

#[test]
fn instance_name_context_after_required_by() {
    let source = "mcdp {\n  sub fu = instance `fuel\n  required total_cost >= fuel_cost required by \n}\n";
    let request = completion_request(source, position_after(source, "required by "));
    assert_eq!(request.context, CompletionContext::InstanceName);
}

#[test]
fn instance_port_context_before_direction_and_instance() {
    match completion_context("mcdp {\n  required c >= ", "fu required by fuel\n}") {
        CompletionContext::InstancePort(context) => panic!("unexpected: {context:?}"),
        other => assert_eq!(other, CompletionContext::InstanceScopedExpression),
    }
    match completion_context("mcdp {\n  required c >= x ", "required by fuel\n}") {
        CompletionContext::InstancePort(context) => {
            assert_eq!(context.direction, PortDirection::Requires);
            assert_eq!(context.instance_name, "fuel");
            assert_eq!(context.insert_mode, InstancePortInsertMode::PortOnly);
        }
        other => panic!("unexpected context: {other:?}"),
    }
}

#[test]
fn resource_string_context_inside_open_quotes() {
    assert!(is_resource_string_context("dp { implemented-by yaml resource(\"bat"));
    assert!(!is_resource_string_context("dp { implemented-by yaml resource(\"bat\")"));
    assert!(!is_resource_string_context("dp { implemented-by yaml resource("));
}

#[test]
fn replace_range_covers_the_word_before_the_cursor() {
    let source = "mcdp {\n  prov";
    let request = completion_request(source, LspPosition { line: 1, character: 6 });
    assert_eq!(
        request.replace_range,
        LspRange {
            start: LspPosition { line: 1, character: 2 },
            end: LspPosition { line: 1, character: 6 }
        }
    );
}

#[test]
fn port_items_describe_direction_instance_and_unit() {
    let range = LspRange {
        start: LspPosition { line: 0, character: 0 },
        end: LspPosition { line: 0, character: 1 },
    };
    let item = port_item(
        "mass",
        Some("kg"),
        PortDirection::Requires,
        "battery",
        InstancePortInsertMode::FullExpression,
        range,
    );
    assert_eq!(item.label, "mass required by battery");
    assert_eq!(item.detail, "Required port from `battery` [kg]");
    assert_eq!(item.filter_text.as_deref(), Some("mass mass required by battery"));
    assert_eq!(item.sort_text.as_deref(), Some("battery mass"));
    assert_eq!(item.edit, Some((range, "mass required by battery".to_owned())));
    assert_eq!(item.insert_text, None);

    let only = port_item("mass", None, PortDirection::Provides, "b", InstancePortInsertMode::PortOnly, range);
    assert_eq!(only.detail, "Provided port from `b`");
    assert_eq!(only.edit, Some((range, "mass".to_owned())));
}

#[test]
fn scoped_expressions_and_paths() {
    assert_eq!(
        instance_scoped_expression("cost", PortDirection::Provides, "m"),
        "cost provided by m"
    );
    assert_eq!(path_to_completion_text("a\\b/c.yaml"), "a/b/c.yaml");
}

fn project_items(
    documents: &[(&str, &str)],
    uri: &str,
    source: &str,
    position: LspPosition,
) -> Vec<CompletionEntry> {
    let mut index = mcdp_language::project::ProjectSymbolIndex::new();
    for (document_uri, text) in documents {
        index.upsert(document_uri, text);
    }
    let request = completion_request(source, position);
    mcdp_language::project::completion_items(Some(&index), uri, &request, &Vec::new(), &Vec::new())
}

fn item_by_label<'a>(items: &'a [CompletionEntry], label: &str) -> &'a CompletionEntry {
    match items.iter().find(|item| item.label == label) {
        Some(item) => item,
        None => panic!("missing completion item `{label}`"),
    }
}

fn completion_new_text(item: &CompletionEntry) -> Option<&str> {
    item.edit.as_ref().map(|(_, text)| text.as_str())
}

fn apply_completion(source: &str, item: &CompletionEntry) -> String {
    let Some((range, new_text)) = item.edit.as_ref() else {
        panic!("completion item should use a text edit");
    };
    let line_index = mcdp_language::line_index::LineIndex::new(source);
    let start = line_index.offset(range.start);
    let end = line_index.offset(range.end);
    let mut completed = String::with_capacity(source.len() + new_text.len());
    completed.push_str(&source[..start]);
    completed.push_str(new_text);
    completed.push_str(&source[end..]);
    completed
}

#[test]
fn model_reference_completions_use_symbol_index_open_documents() {
    let uri = "file:///tmp/model-reference-index-completions/system.mcdp";
    let source = "mcdp {\n  sub x = instance `\n}\n";
    let items = project_items(
        &[
            (uri, source),
            ("file:///tmp/model-reference-index-completions/battery.mcdp", "dp {}"),
            ("file:///tmp/model-reference-index-completions/draft_model.mcdp", "dp { provides draft_port [Nat] }"),
        ],
        uri,
        source,
        LspPosition { line: 1, character: 21 },
    );
    let labels = labels(&items);

    assert!(labels.contains(&"battery"));
    assert!(labels.contains(&"draft_model"));
    assert_eq!(item_by_label(&items, "battery").kind, ItemKind::Reference);
}

#[test]
fn instance_name_completions_use_current_document_bindings_after_by() {
    let source = "mcdp {\n  sub fu = instance `fuel\n  sub mt = instance `maintenance\n  required total_cost >= fuel_cost required by \n}\n";
    let uri = "file:///tmp/instance-name-completions/system.mcdp";
    let items = project_items(
        &[
            (uri, source),
            ("file:///tmp/instance-name-completions/fuel.mcdp", "dp { requires fuel_cost [USD] }"),
            ("file:///tmp/instance-name-completions/maintenance.mcdp", "dp { requires maintenance_cost [USD] }"),
        ],
        uri,
        source,
        position_after(source, "required by "),
    );
    let labels = labels(&items);

    assert_eq!(item_by_label(&items, "fu").kind, ItemKind::Variable);
    assert!(labels.contains(&"mt"));
}

#[test]
fn instance_port_completions_use_selected_instance_and_direction() {
    let source = "\
mcdp {
  sub fu = instance `fuel
  required total_cost >=  required by fu
}
";
    let uri = "file:///tmp/instance-port-completions/system.mcdp";
    let items = project_items(
        &[
            (uri, source),
            (
                "file:///tmp/instance-port-completions/fuel.mcdp",
                "\
dp {
  requires fuel_cost [USD]
  requires emissions [kg]
  provides generated_power [W]
}
",
            ),
        ],
        uri,
        source,
        position_after(source, ">= "),
    );
    let labels = labels(&items);

    let item = item_by_label(&items, "fuel_cost required by fu");
    assert_eq!(item.detail, "Required port from `fu` [USD]");
    assert_eq!(completion_new_text(item), Some("fuel_cost"));
    assert!(labels.contains(&"emissions required by fu"));
    assert!(!labels.contains(&"generated_power provided by fu"));
}

#[test]
fn instance_port_completions_replace_partial_port_before_existing_suffix() {
    let source = "\
mcdp {
  sub fu = instance `fuel
  required total_cost >= fuel required by fu
}
";
    let uri = "file:///tmp/partial-instance-port-completions/system.mcdp";
    let items = project_items(
        &[(uri, source), ("file:///tmp/partial-instance-port-completions/fuel.mcdp", "dp { requires fuel_cost [USD] }")],
        uri,
        source,
        position_after(source, ">= fuel"),
    );
    let item = item_by_label(&items, "fuel_cost required by fu");

    assert_eq!(
        apply_completion(source, item),
        "mcdp {\n  sub fu = instance `fuel\n  required total_cost >= fuel_cost required by fu\n}\n"
    );
}

#[test]
fn instance_port_completions_insert_full_instance_scoped_expression() {
    let source = "\
mcdp {
  sub fu = instance `fuel
  required total_cost >= fuel
}
";
    let uri = "file:///tmp/full-instance-port-completions/system.mcdp";
    let items = project_items(
        &[
            (uri, source),
            (
                "file:///tmp/full-instance-port-completions/fuel.mcdp",
                "\
dp {
  requires fuel_cost [USD]
  provides available_fuel [kg]
}
",
            ),
        ],
        uri,
        source,
        position_after(source, ">= fuel"),
    );
    let required = item_by_label(&items, "fuel_cost required by fu");
    let provided = item_by_label(&items, "available_fuel provided by fu");

    assert_eq!(completion_new_text(required), Some("fuel_cost required by fu"));
    assert_eq!(
        apply_completion(source, required),
        "mcdp {\n  sub fu = instance `fuel\n  required total_cost >= fuel_cost required by fu\n}\n"
    );
    assert_eq!(completion_new_text(provided), Some("available_fuel provided by fu"));
}

#[test]
fn instance_port_completions_appear_after_operator_trigger_context() {
    let source = "mcdp {\n  sub fu = instance `fuel\n  required total_cost >= \n}\n";
    let uri = "file:///tmp/operator-trigger-completions/system.mcdp";
    let items = project_items(
        &[(uri, source), ("file:///tmp/operator-trigger-completions/fuel.mcdp", "dp { requires fuel_cost [USD] }")],
        uri,
        source,
        position_after(source, ">= "),
    );
    let item = item_by_label(&items, "fuel_cost required by fu");

    assert_eq!(completion_new_text(item), Some("fuel_cost required by fu"));
}

#[test]
fn resource_and_directory_names_are_offered_as_given() {
    let source = "dp {\n  implemented-by yaml resource(\"";
    let request = completion_request(source, LspPosition { line: 1, character: 33 });
    let paths = vec!["direct.yaml".to_owned(), "yaml_catalogs/id.dpc.yaml".to_owned()];
    let items = mcdp_language::project::completion_items(None, "file:///tmp/m.mcdp", &request, &Vec::new(), &paths);
    assert_eq!(labels(&items), vec!["direct.yaml", "yaml_catalogs/id.dpc.yaml"]);
    assert_eq!(items[0].kind, ItemKind::File);
    assert_eq!(items[0].detail, "Resource path");

    let source = "mcdp {\n  sub x = instance `\n}\n";
    let request = completion_request(source, LspPosition { line: 1, character: 21 });
    let models = vec!["battery".to_owned()];
    let items = mcdp_language::project::completion_items(None, "file:///tmp/m.mcdp", &request, &models, &Vec::new());
    assert_eq!(labels(&items), vec!["battery"]);
    assert_eq!(items[0].detail, "MCDPL model reference");
}

/// A file of a test directory as the server hands it to the library.
fn found(relative_path: &str) -> FoundFile {
    let path = std::path::Path::new(relative_path);
    FoundFile {
        relative_path: relative_path.to_owned(),
        stem: path.file_stem().and_then(|stem| stem.to_str()).map(str::to_owned),
        extension: path.extension().and_then(|extension| extension.to_str()).map(str::to_owned),
    }
}

#[test]
fn model_reference_completions_scan_mcdpl_files_in_current_directory() {
    let files = vec![
        found("system.mcdp"),
        found("battery.mcdp"),
        found("robot.mcdp_interface"),
        found("loop.mcdp_template"),
        found("map.mcdp_poset"),
        found("query.mcdp_query.yaml"),
    ];
    let models = directory_model_names(&files);
    assert_eq!(models, vec!["battery", "loop", "map", "robot", "system"]);

    let uri = "file:///tmp/model-reference-completions/system.mcdp";
    let source = "mcdp {\n  sub x = instance `\n}\n";
    let request = completion_request(source, LspPosition { line: 1, character: 21 });
    let items = mcdp_language::project::completion_items(None, uri, &request, &models, &Vec::new());
    let labels = labels(&items);

    assert_eq!(item_by_label(&items, "battery").kind, ItemKind::Reference);
    assert!(labels.contains(&"robot"));
    assert!(labels.contains(&"loop"));
    assert!(labels.contains(&"map"));
    assert!(!labels.contains(&"query.mcdp_query"));
}

#[test]
fn resource_path_completions_scan_yaml_files_one_directory_deep() {
    let files = vec![
        found("model.mcdp"),
        found("direct.yaml"),
        found("yaml_catalogs/id.dpc.yaml"),
        found("nested/ignored.txt"),
    ];
    let paths = resource_completion_paths(&files);

    let uri = "file:///tmp/resource-path-completions/model.mcdp";
    let source = "dp {\n  implemented-by yaml resource(\"";
    let request = completion_request(source, LspPosition { line: 1, character: 33 });
    let items = mcdp_language::project::completion_items(None, uri, &request, &Vec::new(), &paths);
    let labels = labels(&items);

    assert_eq!(item_by_label(&items, "direct.yaml").kind, ItemKind::File);
    assert!(labels.contains(&"yaml_catalogs/id.dpc.yaml"));
    assert!(!labels.contains(&"nested/ignored.txt"));
}

#[test]
fn resource_paths_use_forward_slashes_and_come_sorted_once() {
    let files = vec![
        found("b.yml"),
        FoundFile {
            relative_path: "sub\\a.yaml".to_owned(),
            stem: Some("a".to_owned()),
            extension: Some("yaml".to_owned()),
        },
        found("b.yml"),
        found("notes.md"),
    ];
    assert_eq!(resource_completion_paths(&files), vec!["b.yml", "sub/a.yaml"]);
}
