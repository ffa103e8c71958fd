//! Which top-level items of a module enter the reference graph, and which
//! of them are entry points.
//!
//! The front end reads each top-level item into a `TopLevelItem`: the
//! names, spans and flags the unused-code lints look at. `collect_items`
//! then registers them: every function, constant and type; every import but
//! a blank one; the methods of impl blocks; and, of private types that are
//! not serialised, the struct fields and enum variants that may go unused.

use crate::reference_graph::{
    equals_method_name, EnumVariantId, ItemInfo, ItemKind, ModuleItemId, ReferenceGraph, Span,
    StructFieldId,
};
use crate::text::same_text;
use vstd::prelude::*;

verus! {

/// An enum variant, by name.
pub struct VariantRecord {
    pub name: String,
    pub name_span: Span,
}

/// A struct field, with what decides whether it can go unused.
pub struct FieldRecord {
    pub name: String,
    pub name_span: Span,
    pub is_public: bool,
    /// The names of the field's attributes.
    pub attribute_names: Vec<String>,
    pub is_embedded: bool,
}

/// A method of an impl block.
pub struct MethodRecord {
    pub name: String,
    pub name_span: Span,
    pub is_public: bool,
    /// Whether the name is exported (starts in upper case).
    pub name_is_upper: bool,
}

/// A top-level item of a source file, as the reference lints read it.
pub enum TopLevelItem {
    /// An import; `effective_alias` is the name it binds in the file, if any.
    Import { effective_alias: Option<String>, alias_is_blank: bool, name_span: Span, span: Span },
    /// A function; `is_test` when it carries a test attribute.
    Function { name: String, name_span: Span, is_public: bool, is_test: bool },
    Const { identifier: String, identifier_span: Span, is_public: bool },
    /// An enum; `has_serialization_attr` when an attribute serialises it.
    Enum {
        name: String,
        name_span: Span,
        is_public: bool,
        has_serialization_attr: bool,
        variants: Vec<VariantRecord>,
    },
    /// A struct; `synthesizes_equals` when its `equals` is synthesised.
    Struct {
        name: String,
        name_span: Span,
        is_public: bool,
        has_serialization_attr: bool,
        attribute_names: Vec<String>,
        synthesizes_equals: bool,
        fields: Vec<FieldRecord>,
    },
    /// A type alias or an interface.
    TypeDefinition { name: String, name_span: Span, is_public: bool },
    /// The functions of an impl block for `receiver_name`.
    ImplBlock { receiver_name: String, methods: Vec<MethodRecord> },
    /// Anything else.
    Other,
}

/// An item registration: the name, what is recorded for it, and whether it
/// is an entry point.
pub type Entry = (Seq<char>, ItemInfo, bool);

/// Whether one of the names is `name`.
pub open spec fn has_name(names: Seq<String>, name: Seq<char>) -> bool {
    exists|i: int| 0 <= i < names.len() && #[trigger] names[i]@ == name
}

/// A function is used from outside when it is public, `main` or a test.
pub open spec fn function_is_entry(name: Seq<char>, is_public: bool, is_test: bool) -> bool {
    is_public || name == "main"@ || is_test
}

/// A method is used from outside when it is public, exported, or one of
/// the methods Go calls by itself.
pub open spec fn method_is_entry(method: MethodRecord) -> bool {
    ||| method.is_public
    ||| method.name_is_upper
    ||| method.name@ == "string"@
    ||| method.name@ == "goString"@
    ||| method.name@ == "error"@
}

/// The graph name of a method of `receiver`.
pub open spec fn method_name(name: Seq<char>, receiver: Seq<char>) -> Seq<char> {
    if name == "equals"@ {
        equals_method_name(receiver)
    } else {
        name
    }
}

/// A struct field can be reported unused only when nothing outside the
/// module, no serialisation and no synthesised method can read it.
pub open spec fn field_is_candidate(
    field: FieldRecord,
    struct_is_public: bool,
    has_serialization_attr: bool,
    has_display_attr: bool,
    synthesizes_equals: bool,
) -> bool {
    &&& !field.is_public
    &&& !struct_is_public
    &&& !has_serialization_attr
    &&& !has_display_attr
    &&& !synthesizes_equals
    &&& !has_name(field.attribute_names@, "tag"@)
    &&& !field.is_embedded
    &&& !(field.name@.len() > 0 && field.name@[0] == '_')
}

/// The methods of an impl block, registered as functions.
pub open spec fn method_entries(receiver: Seq<char>, methods: Seq<MethodRecord>) -> Seq<Entry> {
    Seq::new(
        methods.len(),
        |i: int|
            (
                method_name(methods[i].name@, receiver),
                ItemInfo { span: methods[i].name_span, kind: ItemKind::Function },
                method_is_entry(methods[i]),
            ),
    )
}

/// The registrations one item makes, in order.
pub open spec fn item_entries(item: TopLevelItem) -> Seq<Entry> {
    match item {
        TopLevelItem::Import { effective_alias, alias_is_blank, name_span, span } => {
            if alias_is_blank {
                Seq::empty()
            } else {
                match effective_alias {
                    Some(alias) => seq![
                        (alias@, ItemInfo { span: name_span, kind: ItemKind::Import { statement_span: span } }, false),
                    ],
                    None => Seq::empty(),
                }
            }
        },
        TopLevelItem::Function { name, name_span, is_public, is_test } => seq![
            (name@, ItemInfo { span: name_span, kind: ItemKind::Function }, function_is_entry(name@, is_public, is_test)),
        ],
        TopLevelItem::Const { identifier, identifier_span, is_public } => seq![
            (identifier@, ItemInfo { span: identifier_span, kind: ItemKind::Constant }, is_public),
        ],
        TopLevelItem::Enum { name, name_span, is_public, .. } => seq![
            (name@, ItemInfo { span: name_span, kind: ItemKind::Type }, is_public),
        ],
        TopLevelItem::Struct { name, name_span, is_public, .. } => seq![
            (name@, ItemInfo { span: name_span, kind: ItemKind::Type }, is_public),
        ],
        TopLevelItem::TypeDefinition { name, name_span, is_public } => seq![
            (name@, ItemInfo { span: name_span, kind: ItemKind::Type }, is_public),
        ],
        TopLevelItem::ImplBlock { receiver_name, methods } => method_entries(receiver_name@, methods@),
        TopLevelItem::Other => Seq::empty(),
    }
}

/// The variants an enum registers as not used yet: all of them for a
/// private enum that is not serialised, none otherwise.
pub open spec fn item_variants(item: TopLevelItem) -> Seq<((Seq<char>, Seq<char>), Span)> {
    match item {
        TopLevelItem::Enum { name, is_public, has_serialization_attr, variants, .. } => {
            if !is_public && !has_serialization_attr {
                Seq::new(variants@.len(), |i: int| ((name@, variants@[i].name@), variants@[i].name_span))
            } else {
                Seq::empty()
            }
        },
        _ => Seq::empty(),
    }
}

/// The fields of a struct that can go unused, under the struct's name
/// qualified by the module.
pub open spec fn candidate_fields(
    qualified: Seq<char>,
    fields: Seq<FieldRecord>,
    struct_is_public: bool,
    has_serialization_attr: bool,
    has_display_attr: bool,
    synthesizes_equals: bool,
) -> Seq<((Seq<char>, Seq<char>), Span)>
    decreases fields.len(),
{
    if fields.len() == 0 {
        Seq::empty()
    } else {
        let rest = candidate_fields(
            qualified,
            fields.drop_last(),
            struct_is_public,
            has_serialization_attr,
            has_display_attr,
            synthesizes_equals,
        );
        let last = fields.last();
        if field_is_candidate(last, struct_is_public, has_serialization_attr, has_display_attr, synthesizes_equals) {
            rest.push(((qualified, last.name@), last.name_span))
        } else {
            rest
        }
    }
}

/// The fields one item registers as not used yet.
pub open spec fn item_fields(module_id: Seq<char>, item: TopLevelItem) -> Seq<((Seq<char>, Seq<char>), Span)> {
    match item {
        TopLevelItem::Struct {
            name,
            is_public,
            has_serialization_attr,
            attribute_names,
            synthesizes_equals,
            fields,
            ..
        } => candidate_fields(
            module_id + "."@ + name@,
            fields@,
            is_public,
            has_serialization_attr,
            has_name(attribute_names@, "display"@),
            synthesizes_equals,
        ),
        _ => Seq::empty(),
    }
}

/// The registrations of all the items, in order.
pub open spec fn all_entries(items: Seq<TopLevelItem>) -> Seq<Entry>
    decreases items.len(),
{
    if items.len() == 0 {
        Seq::empty()
    } else {
        all_entries(items.drop_last()) + item_entries(items.last())
    }
}

pub open spec fn all_variants(items: Seq<TopLevelItem>) -> Seq<((Seq<char>, Seq<char>), Span)>
    decreases items.len(),
{
    if items.len() == 0 {
        Seq::empty()
    } else {
        all_variants(items.drop_last()) + item_variants(items.last())
    }
}

pub open spec fn all_fields(module_id: Seq<char>, items: Seq<TopLevelItem>) -> Seq<((Seq<char>, Seq<char>), Span)>
    decreases items.len(),
{
    if items.len() == 0 {
        Seq::empty()
    } else {
        all_fields(module_id, items.drop_last()) + item_fields(module_id, items.last())
    }
}

/// The item table after the registrations, each one setting its name.
pub open spec fn with_entries(table: Map<Seq<char>, ItemInfo>, entries: Seq<Entry>) -> Map<Seq<char>, ItemInfo>
    decreases entries.len(),
{
    if entries.len() == 0 {
        table
    } else {
        with_entries(table, entries.drop_last()).insert(entries.last().0, entries.last().1)
    }
}

/// The names the registrations make entry points.
pub open spec fn entry_names(entries: Seq<Entry>) -> Set<Seq<char>>
    decreases entries.len(),
{
    if entries.len() == 0 {
        Set::empty()
    } else if entries.last().2 {
        entry_names(entries.drop_last()).insert(entries.last().0)
    } else {
        entry_names(entries.drop_last())
    }
}

/// A table of spans after setting each of the entries in order.
pub open spec fn with_spans<K>(table: Map<K, Span>, entries: Seq<(K, Span)>) -> Map<K, Span>
    decreases entries.len(),
{
    if entries.len() == 0 {
        table
    } else {
        with_spans(table, entries.drop_last()).insert(entries.last().0, entries.last().1)
    }
}

proof fn lemma_with_entries_concat(table: Map<Seq<char>, ItemInfo>, a: Seq<Entry>, b: Seq<Entry>)
    ensures
        with_entries(table, a + b) == with_entries(with_entries(table, a), b),
        entry_names(a + b) == entry_names(a) + entry_names(b),
    decreases b.len(),
{
    if b.len() == 0 {
        assert(a + b =~= a);
        assert(entry_names(a) + entry_names(b) =~= entry_names(a));
    } else {
        assert((a + b).drop_last() =~= a + b.drop_last());
        assert((a + b).last() == b.last());
        lemma_with_entries_concat(table, a, b.drop_last());
        if b.last().2 {
            assert(entry_names(a) + entry_names(b) =~= (entry_names(a) + entry_names(b.drop_last())).insert(b.last().0));
        }
    }
}

proof fn lemma_with_spans_concat<K>(table: Map<K, Span>, a: Seq<(K, Span)>, b: Seq<(K, Span)>)
    ensures
        with_spans(table, a + b) == with_spans(with_spans(table, a), b),
    decreases b.len(),
{
    if b.len() == 0 {
        assert(a + b =~= a);
    } else {
        assert((a + b).drop_last() =~= a + b.drop_last());
        assert((a + b).last() == b.last());
        lemma_with_spans_concat(table, a, b.drop_last());
    }
}

proof fn lemma_with_entries_step(table: Map<Seq<char>, ItemInfo>, entries: Seq<Entry>, j: int)
    requires
        0 <= j < entries.len(),
    ensures
        with_entries(table, entries.take(j + 1)) == with_entries(table, entries.take(j)).insert(entries[j].0, entries[j].1),
        entry_names(entries.take(j + 1)) == if entries[j].2 {
            entry_names(entries.take(j)).insert(entries[j].0)
        } else {
            entry_names(entries.take(j))
        },
{
    assert(entries.take(j + 1).drop_last() =~= entries.take(j));
    assert(entries.take(j + 1).last() == entries[j]);
}

proof fn lemma_with_spans_step<K>(table: Map<K, Span>, entries: Seq<(K, Span)>, j: int)
    requires
        0 <= j < entries.len(),
    ensures
        with_spans(table, entries.take(j + 1)) == with_spans(table, entries.take(j)).insert(entries[j].0, entries[j].1),
{
    assert(entries.take(j + 1).drop_last() =~= entries.take(j));
    assert(entries.take(j + 1).last() == entries[j]);
}

/// Whether one of the names is `wanted`.
fn has_attribute(names: &Vec<String>, wanted: &str) -> (found: bool)
    ensures
        found == has_name(names@, wanted@),
{
    let mut i: usize = 0;
    while i < names.len()
        invariant
            i <= names@.len(),
            forall|j: int| 0 <= j < i ==> names@[j]@ != wanted@,
        decreases names@.len() - i,
    {
        if same_text(names[i].as_str(), wanted) {
            return true;
        }
        i = i + 1;
    }
    false
}

/// Whether the text begins with `_`.
fn starts_with_underscore(s: &str) -> (r: bool)
    ensures
        r == (s@.len() > 0 && s@[0] == '_'),
{
    s.unicode_len() > 0 && s.get_char(0) == '_'
}

fn method_entry(method: &MethodRecord) -> (r: bool)
    ensures
        r == method_is_entry(*method),
{
    method.is_public || method.name_is_upper || same_text(method.name.as_str(), "string") || same_text(
        method.name.as_str(),
        "goString",
    ) || same_text(method.name.as_str(), "error")
}

/// Registers the methods of an impl block for `receiver`.
fn collect_methods(receiver: &str, methods: &Vec<MethodRecord>, graph: &mut ReferenceGraph)
    ensures
        final(graph).items() == with_entries(old(graph).items(), method_entries(receiver@, methods@)),
        final(graph).entry_points() == old(graph).entry_points() + entry_names(method_entries(receiver@, methods@)),
        final(graph).unused_fields() == old(graph).unused_fields(),
        final(graph).unused_variants() == old(graph).unused_variants(),
        forall|from: Seq<char>, to: Seq<char>| final(graph).refers(from, to) == old(graph).refers(from, to),
{
    let ghost entries = method_entries(receiver@, methods@);
    let ghost start = *graph;
    let mut j: usize = 0;
    proof {
        assert(entries.take(0) =~= Seq::<Entry>::empty());
        assert(start.entry_points() + Set::<Seq<char>>::empty() =~= start.entry_points());
    }
    while j < methods.len()
        invariant
            j <= methods@.len(),
            entries == method_entries(receiver@, methods@),
            graph.items() == with_entries(start.items(), entries.take(j as int)),
            graph.entry_points() == start.entry_points() + entry_names(entries.take(j as int)),
            graph.unused_fields() == start.unused_fields(),
            graph.unused_variants() == start.unused_variants(),
            forall|from: Seq<char>, to: Seq<char>| graph.refers(from, to) == start.refers(from, to),
        decreases methods@.len() - j,
    {
        let method = &methods[j];
        let id = ModuleItemId::method(method.name.as_str(), receiver);
        let is_entry = method_entry(method);
        graph.add_item(id, method.name_span, ItemKind::Function, is_entry);
        proof {
            lemma_with_entries_step(start.items(), entries, j as int);
            if is_entry {
                assert(start.entry_points() + entry_names(entries.take(j + 1)) =~= (start.entry_points()
                    + entry_names(entries.take(j as int))).insert(entries[j as int].0));
            }
        }
        j = j + 1;
    }
    proof {
        assert(entries.take(methods@.len() as int) =~= entries);
    }
}

/// Registers the variants of an enum as not used yet.
fn collect_variants(name: &str, variants: &Vec<VariantRecord>, graph: &mut ReferenceGraph)
    ensures
        final(graph).unused_variants() == with_spans(
            old(graph).unused_variants(),
            Seq::new(variants@.len(), |i: int| ((name@, variants@[i].name@), variants@[i].name_span)),
        ),
        final(graph).items() == old(graph).items(),
        final(graph).entry_points() == old(graph).entry_points(),
        final(graph).unused_fields() == old(graph).unused_fields(),
        forall|from: Seq<char>, to: Seq<char>| final(graph).refers(from, to) == old(graph).refers(from, to),
{
    let ghost entries = Seq::new(variants@.len(), |i: int| ((name@, variants@[i].name@), variants@[i].name_span));
    let ghost start = *graph;
    let mut j: usize = 0;
    proof {
        assert(entries.take(0) =~= Seq::<((Seq<char>, Seq<char>), Span)>::empty());
    }
    while j < variants.len()
        invariant
            j <= variants@.len(),
            entries == Seq::new(variants@.len(), |i: int| ((name@, variants@[i].name@), variants@[i].name_span)),
            graph.unused_variants() == with_spans(start.unused_variants(), entries.take(j as int)),
            graph.items() == start.items(),
            graph.entry_points() == start.entry_points(),
            graph.unused_fields() == start.unused_fields(),
            forall|from: Seq<char>, to: Seq<char>| graph.refers(from, to) == start.refers(from, to),
        decreases variants@.len() - j,
    {
        let variant = &variants[j];
        graph.add_enum_variant(EnumVariantId::new(name, variant.name.as_str()), variant.name_span);
        proof {
            lemma_with_spans_step(start.unused_variants(), entries, j as int);
        }
        j = j + 1;
    }
    proof {
        assert(entries.take(variants@.len() as int) =~= entries);
    }
}

/// Registers the fields of a struct that can go unused.
fn collect_fields(
    qualified: &str,
    fields: &Vec<FieldRecord>,
    struct_is_public: bool,
    has_serialization_attr: bool,
    has_display_attr: bool,
    synthesizes_equals: bool,
    graph: &mut ReferenceGraph,
)
    ensures
        final(graph).unused_fields() == with_spans(
            old(graph).unused_fields(),
            candidate_fields(qualified@, fields@, struct_is_public, has_serialization_attr, has_display_attr, synthesizes_equals),
        ),
        final(graph).items() == old(graph).items(),
        final(graph).entry_points() == old(graph).entry_points(),
        final(graph).unused_variants() == old(graph).unused_variants(),
        forall|from: Seq<char>, to: Seq<char>| final(graph).refers(from, to) == old(graph).refers(from, to),
{
    let ghost start = *graph;
    let mut j: usize = 0;
    proof {
        assert(fields@.take(0) =~= Seq::<FieldRecord>::empty());
    }
    while j < fields.len()
        invariant
            j <= fields@.len(),
            graph.unused_fields() == with_spans(
                start.unused_fields(),
                candidate_fields(
                    qualified@,
                    fields@.take(j as int),
                    struct_is_public,
                    has_serialization_attr,
                    has_display_attr,
                    synthesizes_equals,
                ),
            ),
            graph.items() == start.items(),
            graph.entry_points() == start.entry_points(),
            graph.unused_variants() == start.unused_variants(),
            forall|from: Seq<char>, to: Seq<char>| graph.refers(from, to) == start.refers(from, to),
        decreases fields@.len() - j,
    {
        let field = &fields[j];
        let ghost before = candidate_fields(
            qualified@,
            fields@.take(j as int),
            struct_is_public,
            has_serialization_attr,
            has_display_attr,
            synthesizes_equals,
        );
        proof {
            assert(fields@.take(j + 1).drop_last() =~= fields@.take(j as int));
            assert(fields@.take(j + 1).last() == fields@[j as int]);
        }
        let candidate = !field.is_public && !struct_is_public && !has_serialization_attr && !has_display_attr
            && !synthesizes_equals && !has_attribute(&field.attribute_names, "tag") && !field.is_embedded
            && !starts_with_underscore(field.name.as_str());
        if candidate {
            graph.add_struct_field(StructFieldId::new(qualified, field.name.as_str()), field.name_span);
            proof {
                let e = ((qualified@, field.name@), field.name_span);
                assert(before.push(e).drop_last() =~= before);
            }
        }
        j = j + 1;
    }
    proof {
        assert(fields@.take(fields@.len() as int) =~= fields@);
    }
}

/// Registers one top-level item.
fn collect_item(item: &TopLevelItem, module_id: &str, graph: &mut ReferenceGraph)
    ensures
        final(graph).items() == with_entries(old(graph).items(), item_entries(*item)),
        final(graph).entry_points() == old(graph).entry_points() + entry_names(item_entries(*item)),
        final(graph).unused_fields() == with_spans(old(graph).unused_fields(), item_fields(module_id@, *item)),
        final(graph).unused_variants() == with_spans(old(graph).unused_variants(), item_variants(*item)),
        forall|from: Seq<char>, to: Seq<char>| final(graph).refers(from, to) == old(graph).refers(from, to),
{
    let ghost start = *graph;
    proof {
        assert(start.entry_points() + Set::<Seq<char>>::empty() =~= start.entry_points());
    }
    match item {
        TopLevelItem::Import { effective_alias, alias_is_blank, name_span, span } => {
            if !*alias_is_blank {
                match effective_alias {
                    Some(alias) => {
                        graph.add_import(ModuleItemId::new(alias.as_str()), *name_span, *span);
                        proof {
                            lemma_single_entry(
                                start.items(),
                                start.entry_points(),
                                (alias@, ItemInfo { span: *name_span, kind: ItemKind::Import { statement_span: *span } }, false),
                            );
                        }
                    },
                    None => {},
                }
            }
        },
        TopLevelItem::Function { name, name_span, is_public, is_test } => {
            let is_entry = *is_public || same_text(name.as_str(), "main") || *is_test;
            graph.add_item(ModuleItemId::new(name.as_str()), *name_span, ItemKind::Function, is_entry);
            proof {
                lemma_single_entry(start.items(), start.entry_points(), (name@, ItemInfo { span: *name_span, kind: ItemKind::Function }, is_entry));
            }
        },
        TopLevelItem::Const { identifier, identifier_span, is_public } => {
            graph.add_item(ModuleItemId::new(identifier.as_str()), *identifier_span, ItemKind::Constant, *is_public);
            proof {
                lemma_single_entry(start.items(), start.entry_points(), (identifier@, ItemInfo { span: *identifier_span, kind: ItemKind::Constant }, *is_public));
            }
        },
        TopLevelItem::Enum { name, name_span, is_public, has_serialization_attr, variants } => {
            graph.add_item(ModuleItemId::new(name.as_str()), *name_span, ItemKind::Type, *is_public);
            proof {
                lemma_single_entry(start.items(), start.entry_points(), (name@, ItemInfo { span: *name_span, kind: ItemKind::Type }, *is_public));
            }
            if !*is_public && !*has_serialization_attr {
                collect_variants(name.as_str(), variants, graph);
            }
        },
        TopLevelItem::Struct {
            name,
            name_span,
            is_public,
            has_serialization_attr,
            attribute_names,
            synthesizes_equals,
            fields,
        } => {
            graph.add_item(ModuleItemId::new(name.as_str()), *name_span, ItemKind::Type, *is_public);
            proof {
                lemma_single_entry(start.items(), start.entry_points(), (name@, ItemInfo { span: *name_span, kind: ItemKind::Type }, *is_public));
            }
            let mut qualified = String::from_str(module_id);
            qualified.append(".");
            qualified.append(name.as_str());
            let has_display_attr = has_attribute(attribute_names, "display");
            collect_fields(
                qualified.as_str(),
                fields,
                *is_public,
                *has_serialization_attr,
                has_display_attr,
                *synthesizes_equals,
                graph,
            );
        },
        TopLevelItem::TypeDefinition { name, name_span, is_public } => {
            graph.add_item(ModuleItemId::new(name.as_str()), *name_span, ItemKind::Type, *is_public);
            proof {
                lemma_single_entry(start.items(), start.entry_points(), (name@, ItemInfo { span: *name_span, kind: ItemKind::Type }, *is_public));
            }
        },
        TopLevelItem::ImplBlock { receiver_name, methods } => {
            collect_methods(receiver_name.as_str(), methods, graph);
        },
        TopLevelItem::Other => {},
    }
}

proof fn lemma_single_entry(table: Map<Seq<char>, ItemInfo>, points: Set<Seq<char>>, e: Entry)
    ensures
        with_entries(table, seq![e]) == table.insert(e.0, e.1),
        points + entry_names(seq![e]) == if e.2 {
            points.insert(e.0)
        } else {
            points
        },
{
    let one = seq![e];
    assert(one.drop_last() =~= Seq::<Entry>::empty());
    assert(one.last() == e);
    assert(with_entries(table, Seq::<Entry>::empty()) == table);
    assert(entry_names(Seq::<Entry>::empty()) == Set::<Seq<char>>::empty());
    assert(with_entries(table, one) == with_entries(table, one.drop_last()).insert(e.0, e.1));
    if e.2 {
        assert(entry_names(one) == entry_names(one.drop_last()).insert(e.0));
        assert(points + Set::<Seq<char>>::empty().insert(e.0) =~= points.insert(e.0));
    } else {
        assert(entry_names(one) == entry_names(one.drop_last()));
        assert(points + Set::<Seq<char>>::empty() =~= points);
    }
}

/// Registers the top-level items of module `module_id` in the reference
/// graph, in order: functions (entry points when public, `main` or a test),
/// constants and types (entry points when public), every import that is not
/// blank and binds a name, the methods of impl blocks (entry points when
/// public, exported, `string`, `goString` or `error`), and the fields and
/// variants of private, unserialised types that can go unused.
pub fn collect_items(items: &Vec<TopLevelItem>, module_id: &str, graph: &mut ReferenceGraph)
    ensures
        final(graph).items() == with_entries(old(graph).items(), all_entries(items@)),
        final(graph).entry_points() == old(graph).entry_points() + entry_names(all_entries(items@)),
        final(graph).unused_fields() == with_spans(old(graph).unused_fields(), all_fields(module_id@, items@)),
        final(graph).unused_variants() == with_spans(old(graph).unused_variants(), all_variants(items@)),
        forall|from: Seq<char>, to: Seq<char>| final(graph).refers(from, to) == old(graph).refers(from, to),
{
    let ghost start = *graph;
    let mut i: usize = 0;
    proof {
        assert(items@.take(0) =~= Seq::<TopLevelItem>::empty());
        assert(start.entry_points() + Set::<Seq<char>>::empty() =~= start.entry_points());
    }
    while i < items.len()
        invariant
            i <= items@.len(),
            graph.items() == with_entries(start.items(), all_entries(items@.take(i as int))),
            graph.entry_points() == start.entry_points() + entry_names(all_entries(items@.take(i as int))),
            graph.unused_fields() == with_spans(start.unused_fields(), all_fields(module_id@, items@.take(i as int))),
            graph.unused_variants() == with_spans(start.unused_variants(), all_variants(items@.take(i as int))),
            forall|from: Seq<char>, to: Seq<char>| graph.refers(from, to) == start.refers(from, to),
        decreases items@.len() - i,
    {
        let ghost done = items@.take(i as int);
        let ghost item = items@[i as int];
        collect_item(&items[i], module_id, graph);
        proof {
            assert(items@.take(i + 1).drop_last() =~= done);
            assert(items@.take(i + 1).last() == item);
            lemma_with_entries_concat(start.items(), all_entries(done), item_entries(item));
            lemma_with_spans_concat(start.unused_fields(), all_fields(module_id@, done), item_fields(module_id@, item));
            lemma_with_spans_concat(start.unused_variants(), all_variants(done), item_variants(item));
            assert(start.entry_points() + entry_names(all_entries(done)) + entry_names(item_entries(item))
                =~= start.entry_points() + (entry_names(all_entries(done)) + entry_names(item_entries(item))));
        }
        i = i + 1;
    }
    proof {
        assert(items@.take(items@.len() as int) =~= items@);
    }
}

} // verus!
