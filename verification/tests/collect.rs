use emit::collect::{collect_items, FieldRecord, MethodRecord, TopLevelItem, VariantRecord};
use emit::reference_graph::{ItemKind, ModuleItemId, ReferenceGraph, Span, StructFieldId};

fn span(offset: u32) -> Span {
    Span::new(0, offset, 1)
}

fn unreachable_names(graph: &ReferenceGraph) -> Vec<String> {
    let mut names: Vec<String> = graph.get_unreachable().iter().map(|id| id.name.clone()).collect();
    names.sort();
    names
}

fn function(name: &str, offset: u32, is_public: bool, is_test: bool) -> TopLevelItem {
    TopLevelItem::Function { name: name.to_string(), name_span: span(offset), is_public, is_test }
}

fn field(name: &str, offset: u32) -> FieldRecord {
    FieldRecord {
        name: name.to_string(),
        name_span: span(offset),
        is_public: false,
        attribute_names: Vec::new(),
        is_embedded: false,
    }
}

fn method(name: &str, offset: u32, is_public: bool, name_is_upper: bool) -> MethodRecord {
    MethodRecord { name: name.to_string(), name_span: span(offset), is_public, name_is_upper }
}

#[test]
fn functions_are_entry_points_when_public_main_or_tests() {
    let items = vec![
        function("main", 0, false, false),
        function("Exported", 1, true, false),
        function("check", 2, false, true),
        function("helper", 3, false, false),
    ];
    let mut graph = ReferenceGraph::new();
    collect_items(&items, "app", &mut graph);
    assert_eq!(unreachable_names(&graph), vec!["helper".to_string()]);
    let info = graph.get_item(&ModuleItemId::new("helper")).unwrap();
    assert_eq!(info.kind, ItemKind::Function);
    assert_eq!(info.span, span(3));
}

#[test]
fn blank_imports_are_skipped_and_others_registered() {
    let items = vec![
        TopLevelItem::Import {
            effective_alias: Some("fmt".to_string()),
            alias_is_blank: false,
            name_span: span(0),
            span: span(10),
        },
        TopLevelItem::Import {
            effective_alias: Some("side".to_string()),
            alias_is_blank: true,
            name_span: span(1),
            span: span(11),
        },
        TopLevelItem::Import { effective_alias: None, alias_is_blank: false, name_span: span(2), span: span(12) },
    ];
    let mut graph = ReferenceGraph::new();
    collect_items(&items, "app", &mut graph);
    let info = graph.get_item(&ModuleItemId::new("fmt")).unwrap();
    assert_eq!(info.kind, ItemKind::Import { statement_span: span(10) });
    assert_eq!(info.span, span(0));
    assert!(graph.get_item(&ModuleItemId::new("side")).is_none());
    assert_eq!(unreachable_names(&graph), vec!["fmt".to_string()]);
}

#[test]
fn constants_and_types_are_entry_points_only_when_public() {
    let items = vec![
        TopLevelItem::Const { identifier: "LIMIT".to_string(), identifier_span: span(0), is_public: true },
        TopLevelItem::Const { identifier: "secret".to_string(), identifier_span: span(1), is_public: false },
        TopLevelItem::TypeDefinition { name: "Alias".to_string(), name_span: span(2), is_public: false },
        TopLevelItem::Other,
    ];
    let mut graph = ReferenceGraph::new();
    collect_items(&items, "app", &mut graph);
    assert_eq!(unreachable_names(&graph), vec!["Alias".to_string(), "secret".to_string()]);
    assert_eq!(graph.get_item(&ModuleItemId::new("secret")).unwrap().kind, ItemKind::Constant);
    assert_eq!(graph.get_item(&ModuleItemId::new("Alias")).unwrap().kind, ItemKind::Type);
}

#[test]
fn methods_are_entries_when_public_exported_or_called_by_go() {
    let items = vec![TopLevelItem::ImplBlock {
        receiver_name: "Point".to_string(),
        methods: vec![
            method("equals", 0, false, false),
            method("string", 1, false, false),
            method("Norm", 2, false, true),
            method("shift", 3, true, false),
            method("scale", 4, false, false),
            method("error", 5, false, false),
            method("goString", 6, false, false),
        ],
    }];
    let mut graph = ReferenceGraph::new();
    collect_items(&items, "geo", &mut graph);
    assert_eq!(unreachable_names(&graph), vec!["Point#equals".to_string(), "scale".to_string()]);
}

#[test]
fn private_struct_fields_are_candidates_unless_excluded() {
    let mut tagged = field("tagged", 3);
    tagged.attribute_names.push("tag".to_string());
    let mut embedded = field("Inner", 4);
    embedded.is_embedded = true;
    let mut public = field("shown", 5);
    public.is_public = true;
    let items = vec![TopLevelItem::Struct {
        name: "Point".to_string(),
        name_span: span(0),
        is_public: false,
        has_serialization_attr: false,
        attribute_names: Vec::new(),
        synthesizes_equals: false,
        fields: vec![field("x", 1), field("_y", 2), tagged, embedded, public],
    }];
    let mut graph = ReferenceGraph::new();
    collect_items(&items, "geo", &mut graph);
    assert_eq!(graph.get_unused_struct_fields(), vec![span(1)]);
    graph.mark_struct_field_used(StructFieldId::new("geo.Point", "x"));
    assert!(graph.get_unused_struct_fields().is_empty());
}

#[test]
fn public_displayed_or_serialised_structs_offer_no_fields() {
    let make = |is_public: bool, serialised: bool, display: bool, equals: bool| {
        let mut attribute_names = Vec::new();
        if display {
            attribute_names.push("display".to_string());
        }
        TopLevelItem::Struct {
            name: "Point".to_string(),
            name_span: span(0),
            is_public,
            has_serialization_attr: serialised,
            attribute_names,
            synthesizes_equals: equals,
            fields: vec![field("x", 1)],
        }
    };
    for item in [make(true, false, false, false), make(false, true, false, false), make(false, false, true, false), make(false, false, false, true)] {
        let mut graph = ReferenceGraph::new();
        collect_items(&vec![item], "geo", &mut graph);
        assert!(graph.get_unused_struct_fields().is_empty());
    }
}

#[test]
fn variants_of_private_unserialised_enums_are_candidates() {
    let variants = || {
        vec![
            VariantRecord { name: "Red".to_string(), name_span: span(1) },
            VariantRecord { name: "Blue".to_string(), name_span: span(2) },
        ]
    };
    let items = vec![TopLevelItem::Enum {
        name: "Color".to_string(),
        name_span: span(0),
        is_public: false,
        has_serialization_attr: false,
        variants: variants(),
    }];
    let mut graph = ReferenceGraph::new();
    collect_items(&items, "paint", &mut graph);
    let mut spans = graph.get_unused_enum_variants();
    spans.sort_by_key(|s| s.byte_offset);
    assert_eq!(spans, vec![span(1), span(2)]);

    for (is_public, serialised) in [(true, false), (false, true)] {
        let items = vec![TopLevelItem::Enum {
            name: "Color".to_string(),
            name_span: span(0),
            is_public,
            has_serialization_attr: serialised,
            variants: variants(),
        }];
        let mut graph = ReferenceGraph::new();
        collect_items(&items, "paint", &mut graph);
        assert!(graph.get_unused_enum_variants().is_empty());
    }
}
