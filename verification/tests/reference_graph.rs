use emit::reference_graph::{EnumVariantId, ItemKind, ModuleItemId, ReferenceGraph, Span, StructFieldId};

fn span(offset: u32) -> Span {
    Span::new(0, offset, 1)
}

fn names(ids: &[&ModuleItemId]) -> Vec<String> {
    let mut names: Vec<String> = ids.iter().map(|id| id.name.clone()).collect();
    names.sort();
    names
}

#[test]
fn references_make_registered_items_reachable_without_a_second_node_registry() {
    let mut graph = ReferenceGraph::new();
    let root = ModuleItemId::new("root");
    let child = ModuleItemId::new("child");
    graph.add_item(root.clone(), span(0), ItemKind::Function, true);
    graph.add_item(child.clone(), span(1), ItemKind::Function, false);
    graph.add_reference(&root, child);

    assert!(graph.get_unreachable().is_empty());
}

#[test]
fn using_member_removes_it_from_the_unused_candidates() {
    let mut graph = ReferenceGraph::new();
    let field = StructFieldId::new("module.Type", "field");
    let variant = EnumVariantId::new("Type", "Variant");
    graph.add_struct_field(field.clone(), span(0));
    graph.add_enum_variant(variant.clone(), span(1));

    graph.mark_struct_field_used(field);
    graph.mark_enum_variant_used(variant);

    assert_eq!(
        (graph.get_unused_struct_fields().len(), graph.get_unused_enum_variants().len()),
        (0, 0)
    );
}

#[test]
fn reachability_follows_chains_and_cycles_only_from_entry_points() {
    let mut graph = ReferenceGraph::new();
    for (name, entry) in [("main", true), ("a", false), ("b", false), ("c", false), ("d", false)] {
        graph.add_item(ModuleItemId::new(name), span(0), ItemKind::Function, entry);
    }
    graph.add_reference(&ModuleItemId::new("main"), ModuleItemId::new("a"));
    graph.add_reference(&ModuleItemId::new("a"), ModuleItemId::new("b"));
    graph.add_reference(&ModuleItemId::new("b"), ModuleItemId::new("a"));
    graph.add_reference(&ModuleItemId::new("c"), ModuleItemId::new("d"));
    graph.add_reference(&ModuleItemId::new("d"), ModuleItemId::new("c"));
    graph.add_reference(&ModuleItemId::new("a"), ModuleItemId::new("b"));
    let reached = graph.compute_reachable();
    let reached_refs: Vec<&ModuleItemId> = reached.iter().collect();
    assert_eq!(names(&reached_refs), ["a", "b", "main"]);
    assert_eq!(names(&graph.get_unreachable()), ["c", "d"]);
    graph.mark_as_used(ModuleItemId::new("d"));
    assert!(graph.get_unreachable().is_empty());
}

#[test]
fn registering_again_replaces_the_item() {
    let mut graph = ReferenceGraph::new();
    graph.add_item(ModuleItemId::new("x"), span(3), ItemKind::Type, false);
    graph.add_import(ModuleItemId::new("x"), span(4), span(9));
    let info = graph.get_item(&ModuleItemId::new("x")).unwrap();
    assert_eq!(info.span, span(4));
    assert_eq!(info.kind, ItemKind::Import { statement_span: span(9) });
    assert!(graph.get_item(&ModuleItemId::new("y")).is_none());
    assert_eq!(names(&graph.get_unreachable()), ["x"]);
}

#[test]
fn unused_members_are_listed_once_each() {
    let mut graph = ReferenceGraph::new();
    graph.add_struct_field(StructFieldId::new("T", "a"), span(1));
    graph.add_struct_field(StructFieldId::new("T", "b"), span(2));
    graph.add_struct_field(StructFieldId::new("T", "a"), span(5));
    let mut spans = graph.get_unused_struct_fields();
    spans.sort_by_key(|span| span.byte_offset);
    assert_eq!(spans, [span(2), span(5)]);
    graph.mark_struct_field_used(StructFieldId::new("T", "b"));
    assert_eq!(graph.get_unused_struct_fields(), [span(5)]);
}

#[test]
fn equals_methods_are_named_by_their_receiver() {
    assert_eq!(ModuleItemId::equals_method("Point").name, "Point#equals");
    assert_eq!(ModuleItemId::method("equals", "Point").name, "Point#equals");
    assert_eq!(ModuleItemId::method("len", "Point").name, "len");
}
