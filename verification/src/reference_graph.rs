//! The reference graph behind the unused-code lints: which module items
//! refer to which, which are used from outside (entry points), and which
//! struct fields and enum variants nothing has used yet.
//!
//! Items are named by text; each table below holds a name at most once, and
//! is read as a map from names to what the table records.

use crate::text::same_text;
use vstd::prelude::*;

verus! {

/// Where an item is written: a file and a byte range in it.
#[derive(Debug, Clone, Copy, PartialEq, Eq, Structural)]
pub struct Span {
    pub file_id: u32,
    pub byte_offset: u32,
    pub byte_length: u32,
}

impl Span {
    pub fn new(file_id: u32, byte_offset: u32, byte_length: u32) -> (span: Self)
        ensures
            span == (Span { file_id, byte_offset, byte_length }),
    {
        Span { file_id, byte_offset, byte_length }
    }
}

/// A module item, by name; a type's `equals` method is named
/// `Type#equals`.
#[derive(Debug, Clone, PartialEq, Eq, Hash)]
pub struct ModuleItemId {
    pub name: String,
}

/// A field of a struct type.
#[derive(Debug, Clone, PartialEq, Eq, Hash)]
pub struct StructFieldId {
    pub struct_name: String,
    pub field_name: String,
}

/// A variant of an enum type.
#[derive(Debug, Clone, PartialEq, Eq, Hash)]
pub struct EnumVariantId {
    pub enum_name: String,
    pub variant_name: String,
}

impl View for ModuleItemId {
    type V = Seq<char>;

    open spec fn view(&self) -> Seq<char> {
        self.name@
    }
}

impl View for StructFieldId {
    type V = (Seq<char>, Seq<char>);

    open spec fn view(&self) -> (Seq<char>, Seq<char>) {
        (self.struct_name@, self.field_name@)
    }
}

impl View for EnumVariantId {
    type V = (Seq<char>, Seq<char>);

    open spec fn view(&self) -> (Seq<char>, Seq<char>) {
        (self.enum_name@, self.variant_name@)
    }
}

/// The name of the `equals` method of a type.
pub open spec fn equals_method_name(receiver_type: Seq<char>) -> Seq<char> {
    receiver_type + "#equals"@
}

impl ModuleItemId {
    pub fn new(name: &str) -> (id: Self)
        ensures
            id@ == name@,
    {
        ModuleItemId { name: String::from_str(name) }
    }

    /// The `equals` method of `receiver_type`.
    pub fn equals_method(receiver_type: &str) -> (id: Self)
        ensures
            id@ == equals_method_name(receiver_type@),
    {
        let mut name = String::from_str(receiver_type);
        name.append("#equals");
        ModuleItemId { name }
    }

    /// A method called on `receiver`: `equals` is the receiver type's own,
    /// every other method is named by itself.
    pub fn method(method: &str, receiver: &str) -> (id: Self)
        ensures
            id@ == if method@ == "equals"@ {
                equals_method_name(receiver@)
            } else {
                method@
            },
    {
        if same_text(method, "equals") {
            Self::equals_method(receiver)
        } else {
            Self::new(method)
        }
    }
}

impl StructFieldId {
    pub fn new(struct_name: &str, field_name: &str) -> (id: Self)
        ensures
            id@ == (struct_name@, field_name@),
    {
        StructFieldId { struct_name: String::from_str(struct_name), field_name: String::from_str(field_name) }
    }
}

impl EnumVariantId {
    pub fn new(enum_name: &str, variant_name: &str) -> (id: Self)
        ensures
            id@ == (enum_name@, variant_name@),
    {
        EnumVariantId { enum_name: String::from_str(enum_name), variant_name: String::from_str(variant_name) }
    }
}

/// Names that can be compared, and copied, by what they name.
pub trait Keyed: View + Sized {
    fn same_key(&self, other: &Self) -> (same: bool)
        ensures
            same == (self@ == other@);

    fn copy_key(&self) -> (copy: Self)
        ensures
            copy@ == self@;
}

impl Keyed for ModuleItemId {
    fn same_key(&self, other: &Self) -> (same: bool) {
        same_text(self.name.as_str(), other.name.as_str())
    }

    fn copy_key(&self) -> (copy: Self) {
        ModuleItemId { name: self.name.clone() }
    }
}

impl Keyed for StructFieldId {
    fn same_key(&self, other: &Self) -> (same: bool) {
        same_text(self.struct_name.as_str(), other.struct_name.as_str()) && same_text(
            self.field_name.as_str(),
            other.field_name.as_str(),
        )
    }

    fn copy_key(&self) -> (copy: Self) {
        StructFieldId { struct_name: self.struct_name.clone(), field_name: self.field_name.clone() }
    }
}

impl Keyed for EnumVariantId {
    fn same_key(&self, other: &Self) -> (same: bool) {
        same_text(self.enum_name.as_str(), other.enum_name.as_str()) && same_text(
            self.variant_name.as_str(),
            other.variant_name.as_str(),
        )
    }

    fn copy_key(&self) -> (copy: Self) {
        EnumVariantId { enum_name: self.enum_name.clone(), variant_name: self.variant_name.clone() }
    }
}

/// The names of a table's entries, in order.
pub open spec fn keys_of<K: View, V>(entries: Seq<(K, V)>) -> Seq<K::V> {
    entries.map_values(|entry: (K, V)| entry.0@)
}

/// A table read as a map from names to values.
pub open spec fn map_of<K: View, V>(entries: Seq<(K, V)>) -> Map<K::V, V>
    decreases entries.len(),
{
    if entries.len() == 0 {
        Map::empty()
    } else {
        map_of(entries.drop_last()).insert(entries.last().0@, entries.last().1)
    }
}

pub proof fn lemma_map_of_domain<K: View, V>(entries: Seq<(K, V)>)
    ensures
        forall|k: K::V| #[trigger] map_of(entries).contains_key(k) <==> keys_of(entries).contains(k),
    decreases entries.len(),
{
    if entries.len() > 0 {
        let prefix = entries.drop_last();
        let last = entries.last().0@;
        lemma_map_of_domain(prefix);
        assert(keys_of(entries) =~= keys_of(prefix).push(last));
        assert forall|k: K::V| #[trigger] map_of(entries).contains_key(k) <==> keys_of(entries).contains(k) by {
            assert(map_of(entries).contains_key(k) <==> (map_of(prefix).contains_key(k) || k == last));
            assert(keys_of(prefix).push(last).contains(k) <==> (keys_of(prefix).contains(k) || k == last)) by {
                if keys_of(prefix).push(last).contains(k) {
                    let i = choose|i: int| 0 <= i < keys_of(prefix).push(last).len() && keys_of(prefix).push(last)[i] == k;
                    if i < keys_of(prefix).len() {
                        assert(keys_of(prefix)[i] == k);
                    }
                }
                if keys_of(prefix).contains(k) {
                    let i = choose|i: int| 0 <= i < keys_of(prefix).len() && keys_of(prefix)[i] == k;
                    assert(keys_of(prefix).push(last)[i] == k);
                }
                if k == last {
                    assert(keys_of(prefix).push(last)[keys_of(prefix).len() as int] == k);
                }
            }
        }
    }
}

pub proof fn lemma_map_of_entry<K: View, V>(entries: Seq<(K, V)>, i: int)
    requires
        0 <= i < entries.len(),
        keys_of(entries).no_duplicates(),
    ensures
        map_of(entries).contains_key(entries[i].0@),
        map_of(entries)[entries[i].0@] == entries[i].1,
    decreases entries.len(),
{
    let prefix = entries.drop_last();
    if i < entries.len() - 1 {
        assert(keys_of(prefix) =~= keys_of(entries).drop_last());
        lemma_map_of_entry(prefix, i);
        assert(keys_of(entries)[i] != keys_of(entries)[entries.len() - 1]);
    }
}

pub proof fn lemma_map_of_update<K: View, V>(entries: Seq<(K, V)>, i: int, entry: (K, V))
    requires
        0 <= i < entries.len(),
        entries[i].0@ == entry.0@,
        keys_of(entries).no_duplicates(),
    ensures
        map_of(entries.update(i, entry)) == map_of(entries).insert(entry.0@, entry.1),
        keys_of(entries.update(i, entry)) == keys_of(entries),
    decreases entries.len(),
{
    let updated = entries.update(i, entry);
    assert(keys_of(updated) =~= keys_of(entries));
    if i == entries.len() - 1 {
        assert(updated.drop_last() =~= entries.drop_last());
        assert(map_of(entries).insert(entry.0@, entry.1) =~= map_of(entries.drop_last()).insert(entry.0@, entry.1));
    } else {
        assert(updated.drop_last() =~= entries.drop_last().update(i, entry));
        assert(keys_of(entries.drop_last()) =~= keys_of(entries).drop_last());
        assert(keys_of(entries)[i] != keys_of(entries)[entries.len() - 1]);
        assert(updated.last() == entries.last());
        lemma_map_of_update(entries.drop_last(), i, entry);
        assert(map_of(updated) =~= map_of(entries).insert(entry.0@, entry.1));
    }
}

pub proof fn lemma_map_of_remove<K: View, V>(entries: Seq<(K, V)>, i: int)
    requires
        0 <= i < entries.len(),
        keys_of(entries).no_duplicates(),
    ensures
        map_of(entries.remove(i)) == map_of(entries).remove(entries[i].0@),
        keys_of(entries.remove(i)) == keys_of(entries).remove(i),
    decreases entries.len(),
{
    let removed = entries.remove(i);
    let k = entries[i].0@;
    assert(keys_of(removed) =~= keys_of(entries).remove(i));
    let prefix = entries.drop_last();
    if i == entries.len() - 1 {
        assert(removed =~= prefix);
        lemma_map_of_domain(prefix);
        assert forall|j: int| 0 <= j < prefix.len() implies keys_of(prefix)[j] != k by {
            assert(keys_of(entries)[j] != keys_of(entries)[i]);
        }
        assert(!keys_of(prefix).contains(k));
        assert(map_of(removed) =~= map_of(entries).remove(k));
    } else {
        assert(keys_of(prefix) =~= keys_of(entries).drop_last());
        assert(removed.drop_last() =~= prefix.remove(i));
        assert(removed.last() == entries.last());
        lemma_map_of_remove(prefix, i);
        assert(entries.last().0@ != k) by {
            assert(keys_of(entries)[entries.len() - 1] != keys_of(entries)[i]);
        }
        assert(map_of(removed) =~= map_of(entries).remove(k));
    }
}

/// Where the name stands in the table, if it is there.
fn find_key<K: Keyed, V>(entries: &Vec<(K, V)>, key: &K) -> (found: Option<usize>)
    ensures
        match found {
            Some(i) => i < entries@.len() && entries@[i as int].0@ == key@,
            None => !keys_of(entries@).contains(key@),
        },
{
    let mut i: usize = 0;
    while i < entries.len()
        invariant
            i <= entries@.len(),
            forall|j: int| 0 <= j < i ==> entries@[j].0@ != key@,
        decreases entries@.len() - i,
    {
        if entries[i].0.same_key(key) {
            return Some(i);
        }
        i = i + 1;
    }
    proof {
        if keys_of(entries@).contains(key@) {
            let j = choose|j: int| 0 <= j < keys_of(entries@).len() && keys_of(entries@)[j] == key@;
            assert(entries@[j].0@ == key@);
        }
    }
    None
}

/// Sets the value of `key`, adding the name if it is new.
fn insert_entry<K: Keyed, V>(entries: &mut Vec<(K, V)>, key: K, value: V)
    requires
        keys_of(old(entries)@).no_duplicates(),
    ensures
        keys_of(final(entries)@).no_duplicates(),
        map_of(final(entries)@) == map_of(old(entries)@).insert(key@, value),
{
    let ghost k = key@;
    match find_key(entries, &key) {
        Some(i) => {
            proof {
                lemma_map_of_update(entries@, i as int, (key, value));
            }
            entries.set(i, (key, value));
        },
        None => {
            let ghost before = entries@;
            entries.push((key, value));
            proof {
                assert(entries@.drop_last() =~= before);
                assert(keys_of(entries@) =~= keys_of(before).push(k));
            }
        },
    }
}

/// Drops `key` from the table, if it is there.
fn remove_entry<K: Keyed, V>(entries: &mut Vec<(K, V)>, key: &K)
    requires
        keys_of(old(entries)@).no_duplicates(),
    ensures
        keys_of(final(entries)@).no_duplicates(),
        map_of(final(entries)@) == map_of(old(entries)@).remove(key@),
{
    match find_key(entries, key) {
        Some(i) => {
            proof {
                lemma_map_of_remove(entries@, i as int);
            }
            entries.remove(i);
        },
        None => {
            proof {
                lemma_map_of_domain(entries@);
                assert(map_of(entries@).remove(key@) =~= map_of(entries@));
            }
        },
    }
}

} // verus!

verus! {

/// What kind of item a module item is.
#[derive(Debug, Clone, Copy, PartialEq, Eq, Structural)]
pub enum ItemKind {
    Import { statement_span: Span },
    Type,
    Function,
    Constant,
}

/// Where a module item is written, and what kind of item it is.
#[derive(Debug, Clone, Copy, PartialEq, Eq, Structural)]
pub struct ItemInfo {
    pub span: Span,
    pub kind: ItemKind,
}

/// The names of the ids, in order.
pub open spec fn ids_of(ids: Seq<ModuleItemId>) -> Seq<Seq<char>> {
    ids.map_values(|id: ModuleItemId| id@)
}

/// The values of a table, one per name: there is an order of its names in
/// which `values` lists what each name maps to.
pub open spec fn lists_values<K>(values: Seq<Span>, map: Map<K, Span>) -> bool {
    exists|keys: Seq<K>|
        #![trigger keys.to_set()]
        keys.no_duplicates() && keys.to_set() == map.dom() && values == keys.map_values(|k: K| map[k])
}

/// Whether the id's name is among the ids.
fn contains_id(ids: &Vec<ModuleItemId>, id: &ModuleItemId) -> (found: bool)
    ensures
        found == ids_of(ids@).contains(id@),
{
    let mut i: usize = 0;
    while i < ids.len()
        invariant
            i <= ids@.len(),
            forall|j: int| 0 <= j < i ==> ids@[j]@ != id@,
        decreases ids@.len() - i,
    {
        if ids[i].same_key(id) {
            proof {
                assert(ids_of(ids@)[i as int] == id@);
            }
            return true;
        }
        i = i + 1;
    }
    proof {
        if ids_of(ids@).contains(id@) {
            let j = choose|j: int| 0 <= j < ids_of(ids@).len() && ids_of(ids@)[j] == id@;
            assert(ids@[j]@ == id@);
        }
    }
    false
}

/// Adds the id to a list that holds each name once, unless it is there.
fn add_id(ids: &mut Vec<ModuleItemId>, id: ModuleItemId)
    requires
        ids_of(old(ids)@).no_duplicates(),
    ensures
        ids_of(final(ids)@).no_duplicates(),
        ids_of(final(ids)@).to_set() == ids_of(old(ids)@).to_set().insert(id@),
{
    if !contains_id(ids, &id) {
        let ghost before = ids@;
        ids.push(id);
        proof {
            assert(ids_of(ids@) =~= ids_of(before).push(id@));
            assert(ids_of(ids@).to_set() =~= ids_of(before).to_set().insert(id@)) by {
                assert forall|n: Seq<char>| ids_of(ids@).to_set().contains(n) <==> ids_of(before).to_set().insert(id@).contains(n) by {
                    if ids_of(ids@).contains(n) {
                        let j = choose|j: int| 0 <= j < ids_of(ids@).len() && ids_of(ids@)[j] == n;
                        if j < before.len() {
                            assert(ids_of(before)[j] == n);
                        }
                    }
                    if ids_of(before).contains(n) {
                        let j = choose|j: int| 0 <= j < ids_of(before).len() && ids_of(before)[j] == n;
                        assert(ids_of(ids@)[j] == n);
                    }
                    if n == id@ {
                        assert(ids_of(ids@)[before.len() as int] == n);
                    }
                }
            }
        }
    } else {
        proof {
            assert(ids_of(ids@).to_set() =~= ids_of(ids@).to_set().insert(id@));
        }
    }
}

/// The graph of references between module items, with the items and the
/// struct fields and enum variants not used yet.
pub struct ReferenceGraph {
    edges: Vec<(ModuleItemId, Vec<ModuleItemId>)>,
    entrypoints: Vec<ModuleItemId>,
    items: Vec<(ModuleItemId, ItemInfo)>,
    unused_struct_fields: Vec<(StructFieldId, Span)>,
    unused_enum_variants: Vec<(EnumVariantId, Span)>,
}

impl ReferenceGraph {
    #[verifier::type_invariant]
    spec fn well_formed(self) -> bool {
        &&& keys_of(self.edges@).no_duplicates()
        &&& forall|i: int| 0 <= i < self.edges@.len() ==> ids_of(#[trigger] self.edges@[i].1@).no_duplicates()
        &&& ids_of(self.entrypoints@).no_duplicates()
        &&& keys_of(self.items@).no_duplicates()
        &&& keys_of(self.unused_struct_fields@).no_duplicates()
        &&& keys_of(self.unused_enum_variants@).no_duplicates()
    }

    /// The items used from outside the graph.
    pub closed spec fn entry_points(&self) -> Set<Seq<char>> {
        ids_of(self.entrypoints@).to_set()
    }

    /// Whether the item `from` refers to the item `to`.
    pub closed spec fn refers(&self, from: Seq<char>, to: Seq<char>) -> bool {
        map_of(self.edges@).contains_key(from) && ids_of(map_of(self.edges@)[from]@).contains(to)
    }

    /// The registered items.
    pub closed spec fn items(&self) -> Map<Seq<char>, ItemInfo> {
        map_of(self.items@)
    }

    /// The struct fields not used yet, with where they are declared.
    pub closed spec fn unused_fields(&self) -> Map<(Seq<char>, Seq<char>), Span> {
        map_of(self.unused_struct_fields@)
    }

    /// The enum variants not used yet, with where they are declared.
    pub closed spec fn unused_variants(&self) -> Map<(Seq<char>, Seq<char>), Span> {
        map_of(self.unused_enum_variants@)
    }

    /// An empty graph.
    pub fn new() -> (graph: Self)
        ensures
            graph.entry_points() == Set::<Seq<char>>::empty(),
            forall|from: Seq<char>, to: Seq<char>| !graph.refers(from, to),
            graph.items() == Map::<Seq<char>, ItemInfo>::empty(),
            graph.unused_fields() == Map::<(Seq<char>, Seq<char>), Span>::empty(),
            graph.unused_variants() == Map::<(Seq<char>, Seq<char>), Span>::empty(),
    {
        let graph = ReferenceGraph {
            edges: Vec::new(),
            entrypoints: Vec::new(),
            items: Vec::new(),
            unused_struct_fields: Vec::new(),
            unused_enum_variants: Vec::new(),
        };
        proof {
            assert(ids_of(graph.entrypoints@).to_set() =~= Set::<Seq<char>>::empty());
        }
        graph
    }

    /// Registers an item, as an entry point if `is_entry_point`.
    pub fn add_item(&mut self, id: ModuleItemId, span: Span, kind: ItemKind, is_entry_point: bool)
        ensures
            final(self).items() == old(self).items().insert(id@, ItemInfo { span, kind }),
            final(self).entry_points() == if is_entry_point {
                old(self).entry_points().insert(id@)
            } else {
                old(self).entry_points()
            },
            forall|from: Seq<char>, to: Seq<char>| final(self).refers(from, to) == old(self).refers(from, to),
            final(self).unused_fields() == old(self).unused_fields(),
            final(self).unused_variants() == old(self).unused_variants(),
    {
        proof {
            use_type_invariant(&*self);
        }
        let copy = id.copy_key();
        let mut table = Vec::new();
        std::mem::swap(&mut table, &mut self.items);
        insert_entry(&mut table, copy, ItemInfo { span, kind });
        self.items = table;
        if is_entry_point {
            let mut table = Vec::new();
            std::mem::swap(&mut table, &mut self.entrypoints);
            add_id(&mut table, id);
            self.entrypoints = table;
        }
    }

    /// Registers an import, declared by the statement at `statement_span`.
    pub fn add_import(&mut self, id: ModuleItemId, span: Span, statement_span: Span)
        ensures
            final(self).items() == old(self).items().insert(
                id@,
                ItemInfo { span, kind: ItemKind::Import { statement_span } },
            ),
            final(self).entry_points() == old(self).entry_points(),
            forall|from: Seq<char>, to: Seq<char>| final(self).refers(from, to) == old(self).refers(from, to),
            final(self).unused_fields() == old(self).unused_fields(),
            final(self).unused_variants() == old(self).unused_variants(),
    {
        proof {
            use_type_invariant(&*self);
        }
        let mut table = Vec::new();
        std::mem::swap(&mut table, &mut self.items);
        insert_entry(&mut table, id, ItemInfo { span, kind: ItemKind::Import { statement_span } });
        self.items = table;
    }

    /// Marks an item as used from outside the graph.
    pub fn mark_as_used(&mut self, id: ModuleItemId)
        ensures
            final(self).entry_points() == old(self).entry_points().insert(id@),
            final(self).items() == old(self).items(),
            forall|from: Seq<char>, to: Seq<char>| final(self).refers(from, to) == old(self).refers(from, to),
            final(self).unused_fields() == old(self).unused_fields(),
            final(self).unused_variants() == old(self).unused_variants(),
    {
        proof {
            use_type_invariant(&*self);
        }
        let mut table = Vec::new();
        std::mem::swap(&mut table, &mut self.entrypoints);
        add_id(&mut table, id);
        self.entrypoints = table;
    }

    /// The item, if it is registered.
    pub fn get_item(&self, id: &ModuleItemId) -> (info: Option<&ItemInfo>)
        ensures
            match info {
                Some(found) => self.items().contains_key(id@) && self.items()[id@] == *found,
                None => !self.items().contains_key(id@),
            },
    {
        proof {
            use_type_invariant(self);
            lemma_map_of_domain(self.items@);
        }
        match find_key(&self.items, id) {
            Some(i) => {
                proof {
                    lemma_map_of_entry(self.items@, i as int);
                }
                Some(&self.items[i].1)
            },
            None => None,
        }
    }

    /// Registers a struct field as not used yet.
    pub fn add_struct_field(&mut self, id: StructFieldId, span: Span)
        ensures
            final(self).unused_fields() == old(self).unused_fields().insert(id@, span),
            final(self).unused_variants() == old(self).unused_variants(),
            final(self).items() == old(self).items(),
            final(self).entry_points() == old(self).entry_points(),
            forall|from: Seq<char>, to: Seq<char>| final(self).refers(from, to) == old(self).refers(from, to),
    {
        proof {
            use_type_invariant(&*self);
        }
        let mut table = Vec::new();
        std::mem::swap(&mut table, &mut self.unused_struct_fields);
        insert_entry(&mut table, id, span);
        self.unused_struct_fields = table;
    }

    /// A struct field was used.
    pub fn mark_struct_field_used(&mut self, id: StructFieldId)
        ensures
            final(self).unused_fields() == old(self).unused_fields().remove(id@),
            final(self).unused_variants() == old(self).unused_variants(),
            final(self).items() == old(self).items(),
            final(self).entry_points() == old(self).entry_points(),
            forall|from: Seq<char>, to: Seq<char>| final(self).refers(from, to) == old(self).refers(from, to),
    {
        proof {
            use_type_invariant(&*self);
        }
        let mut table = Vec::new();
        std::mem::swap(&mut table, &mut self.unused_struct_fields);
        remove_entry(&mut table, &id);
        self.unused_struct_fields = table;
    }

    /// Registers an enum variant as not used yet.
    pub fn add_enum_variant(&mut self, id: EnumVariantId, span: Span)
        ensures
            final(self).unused_variants() == old(self).unused_variants().insert(id@, span),
            final(self).unused_fields() == old(self).unused_fields(),
            final(self).items() == old(self).items(),
            final(self).entry_points() == old(self).entry_points(),
            forall|from: Seq<char>, to: Seq<char>| final(self).refers(from, to) == old(self).refers(from, to),
    {
        proof {
            use_type_invariant(&*self);
        }
        let mut table = Vec::new();
        std::mem::swap(&mut table, &mut self.unused_enum_variants);
        insert_entry(&mut table, id, span);
        self.unused_enum_variants = table;
    }

    /// An enum variant was used.
    pub fn mark_enum_variant_used(&mut self, id: EnumVariantId)
        ensures
            final(self).unused_variants() == old(self).unused_variants().remove(id@),
            final(self).unused_fields() == old(self).unused_fields(),
            final(self).items() == old(self).items(),
            final(self).entry_points() == old(self).entry_points(),
            forall|from: Seq<char>, to: Seq<char>| final(self).refers(from, to) == old(self).refers(from, to),
    {
        proof {
            use_type_invariant(&*self);
        }
        let mut table = Vec::new();
        std::mem::swap(&mut table, &mut self.unused_enum_variants);
        remove_entry(&mut table, &id);
        self.unused_enum_variants = table;
    }

    /// Records that `from` refers to `to`.
    pub fn add_reference(&mut self, from: &ModuleItemId, to: ModuleItemId)
        ensures
            forall|a: Seq<char>, b: Seq<char>| #[trigger] final(self).refers(a, b) == (old(self).refers(a, b) || (a == from@ && b == to@)),
            final(self).entry_points() == old(self).entry_points(),
            final(self).items() == old(self).items(),
            final(self).unused_fields() == old(self).unused_fields(),
            final(self).unused_variants() == old(self).unused_variants(),
    {
        proof {
            use_type_invariant(&*self);
        }
        let mut table = Vec::new();
        std::mem::swap(&mut table, &mut self.edges);
        let ghost before = table@;
        proof {
            lemma_map_of_domain(before);
        }
        match find_key(&table, from) {
            Some(i) => {
                let (key, mut targets) = table.remove(i);
                proof {
                    lemma_map_of_entry(before, i as int);
                    assert(before[i as int] == (key, targets));
                }
                add_id(&mut targets, to);
                let ghost entry = (key, targets);
                table.insert(i, (key, targets));
                proof {
                    assert(table@ =~= before.update(i as int, entry));
                    lemma_map_of_update(before, i as int, entry);
                    assert forall|j: int| 0 <= j < table@.len() implies ids_of(#[trigger] table@[j].1@).no_duplicates() by {
                        if j != i {
                            assert(table@[j] == before[j]);
                        }
                    }
                    assert forall|a: Seq<char>, b: Seq<char>| map_of(table@).contains_key(a) && #[trigger] ids_of(map_of(table@)[a]@).contains(b)
                        <==> (map_of(before).contains_key(a) && ids_of(map_of(before)[a]@).contains(b)) || (a == from@ && b == to@) by {
                        if a == from@ {
                            assert(ids_of(targets@).to_set().contains(b) == ids_of(map_of(before)[a]@).to_set().insert(to@).contains(b));
                        }
                    }
                }
            },
            None => {
                let mut targets = Vec::new();
                targets.push(to);
                let key = from.copy_key();
                table.push((key, targets));
                proof {
                    assert(table@.drop_last() =~= before);
                    assert(keys_of(table@) =~= keys_of(before).push(from@));
                    assert(ids_of(targets@) =~= seq![to@]);
                    assert forall|j: int| 0 <= j < table@.len() implies ids_of(#[trigger] table@[j].1@).no_duplicates() by {
                        if j < before.len() {
                            assert(table@[j] == before[j]);
                        }
                    }
                    assert forall|a: Seq<char>, b: Seq<char>| map_of(table@).contains_key(a) && #[trigger] ids_of(map_of(table@)[a]@).contains(b)
                        <==> (map_of(before).contains_key(a) && ids_of(map_of(before)[a]@).contains(b)) || (a == from@ && b == to@) by {
                        if a == from@ {
                            assert(ids_of(map_of(table@)[a]@)[0] == to@);
                        }
                    }
                }
            },
        }
        self.edges = table;
    }
}

} // verus!

verus! {

/// Whether `path` starts at an entry point and follows references.
pub open spec fn leads(graph: &ReferenceGraph, path: Seq<Seq<char>>) -> bool {
    &&& path.len() > 0
    &&& graph.entry_points().contains(path[0])
    &&& forall|i: int| 0 <= i < path.len() - 1 ==> #[trigger] graph.refers(path[i], path[i + 1])
}

/// Whether some chain of references leads from an entry point to `name`.
pub open spec fn is_reachable(graph: &ReferenceGraph, name: Seq<char>) -> bool {
    exists|path: Seq<Seq<char>>| #[trigger] leads(graph, path) && path.last() == name
}

/// Every entry point is reachable.
pub proof fn law_entry_points_are_reachable(graph: &ReferenceGraph, name: Seq<char>)
    requires
        graph.entry_points().contains(name),
    ensures
        is_reachable(graph, name),
{
    let path = seq![name];
    assert(leads(graph, path));
}

/// What a reachable item refers to is reachable.
pub proof fn law_references_keep_reachability(graph: &ReferenceGraph, from: Seq<char>, to: Seq<char>)
    requires
        is_reachable(graph, from),
        graph.refers(from, to),
    ensures
        is_reachable(graph, to),
{
    let path = choose|path: Seq<Seq<char>>| #[trigger] leads(graph, path) && path.last() == from;
    let longer = path.push(to);
    assert forall|i: int| 0 <= i < longer.len() - 1 implies #[trigger] graph.refers(longer[i], longer[i + 1]) by {
        if i < path.len() - 1 {
            assert(graph.refers(path[i], path[i + 1]));
        }
    }
    assert(leads(graph, longer));
}

/// A set that holds the entry points and what its members refer to holds
/// every reachable item.
pub proof fn lemma_closed_holds_reachable(graph: &ReferenceGraph, closed: Set<Seq<char>>, path: Seq<Seq<char>>)
    requires
        forall|n: Seq<char>| graph.entry_points().contains(n) ==> closed.contains(n),
        forall|a: Seq<char>, b: Seq<char>| closed.contains(a) && #[trigger] graph.refers(a, b) ==> closed.contains(b),
        leads(graph, path),
    ensures
        closed.contains(path.last()),
    decreases path.len(),
{
    if path.len() > 1 {
        let prefix = path.drop_last();
        assert forall|i: int| 0 <= i < prefix.len() - 1 implies #[trigger] graph.refers(prefix[i], prefix[i + 1]) by {
            assert(graph.refers(path[i], path[i + 1]));
        }
        assert(leads(graph, prefix));
        lemma_closed_holds_reachable(graph, closed, prefix);
        let i = path.len() - 2;
        assert(graph.refers(path[i], path[i + 1]));
        assert(prefix.last() == path[i]);
        assert(path.last() == path[i + 1]);
    }
}

/// The names the references lead to.
pub open spec fn targets_in(edges: Seq<(ModuleItemId, Vec<ModuleItemId>)>) -> Set<Seq<char>>
    decreases edges.len(),
{
    if edges.len() == 0 {
        Set::empty()
    } else {
        targets_in(edges.drop_last()).union(ids_of(edges.last().1@).to_set())
    }
}

pub proof fn lemma_targets_in(edges: Seq<(ModuleItemId, Vec<ModuleItemId>)>, i: int, name: Seq<char>)
    requires
        0 <= i < edges.len(),
        ids_of(edges[i].1@).contains(name),
    ensures
        targets_in(edges).contains(name),
        targets_in(edges).finite(),
    decreases edges.len(),
{
    lemma_targets_finite(edges);
    if i < edges.len() - 1 {
        lemma_targets_in(edges.drop_last(), i, name);
        assert(edges.drop_last()[i] == edges[i]);
    }
}

pub proof fn lemma_targets_finite(edges: Seq<(ModuleItemId, Vec<ModuleItemId>)>)
    ensures
        targets_in(edges).finite(),
    decreases edges.len(),
{
    if edges.len() > 0 {
        lemma_targets_finite(edges.drop_last());
        vstd::seq_lib::seq_to_set_is_finite(ids_of(edges.last().1@));
    }
}

} // verus!

verus! {

/// Distinct names all drawn from a finite set are at most as many as it has.
proof fn lemma_len_within(ids: Seq<ModuleItemId>, universe: Set<Seq<char>>)
    requires
        ids_of(ids).no_duplicates(),
        universe.finite(),
        forall|n: Seq<char>| #[trigger] ids_of(ids).contains(n) ==> universe.contains(n),
    ensures
        ids.len() <= universe.len(),
{
    ids_of(ids).unique_seq_to_set();
    assert(ids_of(ids).to_set().subset_of(universe));
    vstd::set_lib::lemma_len_subset(ids_of(ids).to_set(), universe);
}

/// What an item refers to is among the graph's reference targets, and is
/// listed under the item.
proof fn lemma_refers_listed(graph: &ReferenceGraph, from: Seq<char>, to: Seq<char>)
    requires
        keys_of(graph.edges@).no_duplicates(),
        graph.refers(from, to),
    ensures
        targets_in(graph.edges@).contains(to),
{
    lemma_map_of_domain(graph.edges@);
    let i = choose|i: int| 0 <= i < keys_of(graph.edges@).len() && keys_of(graph.edges@)[i] == from;
    lemma_map_of_entry(graph.edges@, i);
    lemma_targets_in(graph.edges@, i, to);
}

proof fn lemma_push_ids(ids: Seq<ModuleItemId>, id: ModuleItemId)
    ensures
        ids_of(ids.push(id)) == ids_of(ids).push(id@),
        forall|n: Seq<char>| #[trigger] ids_of(ids.push(id)).contains(n) <==> (ids_of(ids).contains(n) || n == id@),
{
    assert(ids_of(ids.push(id)) =~= ids_of(ids).push(id@));
    assert forall|n: Seq<char>| #[trigger] ids_of(ids.push(id)).contains(n) <==> (ids_of(ids).contains(n) || n == id@) by {
        if ids_of(ids.push(id)).contains(n) {
            let j = choose|j: int| 0 <= j < ids_of(ids.push(id)).len() && ids_of(ids.push(id))[j] == n;
            if j < ids.len() {
                assert(ids_of(ids)[j] == n);
            }
        }
        if ids_of(ids).contains(n) {
            let j = choose|j: int| 0 <= j < ids_of(ids).len() && ids_of(ids)[j] == n;
            assert(ids_of(ids.push(id))[j] == n);
        }
        if n == id@ {
            assert(ids_of(ids.push(id))[ids.len() as int] == n);
        }
    }
}

impl ReferenceGraph {
    /// The items reachable from the entry points along references, each
    /// once.
    pub fn compute_reachable(&self) -> (reached: Vec<ModuleItemId>)
        ensures
            ids_of(reached@).no_duplicates(),
            forall|name: Seq<char>| #[trigger] ids_of(reached@).contains(name) <==> is_reachable(self, name),
    {
        proof {
            use_type_invariant(self);
            lemma_targets_finite(self.edges@);
            vstd::seq_lib::seq_to_set_is_finite(ids_of(self.entrypoints@));
        }
        let ghost universe = self.entry_points().union(targets_in(self.edges@));
        let mut worklist: Vec<ModuleItemId> = Vec::new();
        let mut i: usize = 0;
        while i < self.entrypoints.len()
            invariant
                i <= self.entrypoints@.len(),
                ids_of(worklist@) == ids_of(self.entrypoints@).take(i as int),
            decreases self.entrypoints@.len() - i,
        {
            let ghost before = worklist@;
            worklist.push(self.entrypoints[i].copy_key());
            proof {
                lemma_push_ids(before, worklist@.last());
                assert(ids_of(self.entrypoints@).take(i + 1) =~= ids_of(self.entrypoints@).take(i as int).push(
                    self.entrypoints@[i as int]@,
                ));
            }
            i = i + 1;
        }
        proof {
            assert(ids_of(self.entrypoints@).take(i as int) =~= ids_of(self.entrypoints@));
            assert forall|n: Seq<char>| #[trigger] ids_of(worklist@).contains(n) implies is_reachable(self, n) && universe.contains(n) by {
                assert(self.entry_points().contains(n));
                law_entry_points_are_reachable(self, n);
            }
        }
        let mut reachable: Vec<ModuleItemId> = Vec::new();
        while worklist.len() > 0
            invariant
                universe == self.entry_points().union(targets_in(self.edges@)),
                universe.finite(),
                keys_of(self.edges@).no_duplicates(),
                ids_of(reachable@).no_duplicates(),
                forall|n: Seq<char>| #[trigger] ids_of(reachable@).contains(n) ==> is_reachable(self, n) && universe.contains(n),
                forall|n: Seq<char>| #[trigger] ids_of(worklist@).contains(n) ==> is_reachable(self, n) && universe.contains(n),
                forall|n: Seq<char>| self.entry_points().contains(n) ==> #[trigger] ids_of(reachable@).contains(n) || ids_of(worklist@).contains(n),
                forall|a: Seq<char>, b: Seq<char>| ids_of(reachable@).contains(a) && #[trigger] self.refers(a, b) ==> ids_of(reachable@).contains(b) || ids_of(worklist@).contains(b),
            decreases universe.len() - reachable@.len(), worklist@.len(),
        {
            let ghost queued = worklist@;
            let item = worklist.pop().unwrap();
            proof {
                assert(queued =~= worklist@.push(item));
                lemma_push_ids(worklist@, item);
                assert forall|n: Seq<char>| #[trigger] ids_of(queued).contains(n) <==> (ids_of(worklist@).contains(n) || n == item@) by {
                    assert(ids_of(queued) == ids_of(worklist@.push(item)));
                }
                assert(ids_of(queued).contains(item@));
                assert forall|n: Seq<char>| #[trigger] ids_of(worklist@).contains(n) implies is_reachable(self, n)
                    && universe.contains(n) by {
                    assert(ids_of(queued).contains(n));
                }
                lemma_len_within(reachable@, universe);
            }
            if contains_id(&reachable, &item) {
                continue;
            }
            let ghost name = item@;
            let found = find_key(&self.edges, &item);
            let ghost held = reachable@;
            reachable.push(item);
            proof {
                lemma_push_ids(held, reachable@.last());
                assert(reachable@ == held.push(reachable@.last()));
                assert(ids_of(reachable@).no_duplicates()) by {
                    assert(ids_of(reachable@) == ids_of(held).push(name));
                }
                lemma_len_within(reachable@, universe);
            }
            match found {
                Some(e) => {
                    let targets = &self.edges[e].1;
                    proof {
                        lemma_map_of_entry(self.edges@, e as int);
                    }
                    let mut j: usize = 0;
                    while j < targets.len()
                        invariant
                            universe == self.entry_points().union(targets_in(self.edges@)),
                            universe.finite(),
                            keys_of(self.edges@).no_duplicates(),
                            e < self.edges@.len(),
                            *targets == self.edges@[e as int].1,
                            self.edges@[e as int].0@ == name,
                            map_of(self.edges@)[name] == *targets,
                            map_of(self.edges@).contains_key(name),
                            j <= targets@.len(),
                            is_reachable(self, name),
                            ids_of(reachable@).no_duplicates(),
                            ids_of(reachable@).contains(name),
                            reachable@.len() <= universe.len(),
                            forall|n: Seq<char>| #[trigger] ids_of(reachable@).contains(n) ==> is_reachable(self, n) && universe.contains(n),
                            forall|n: Seq<char>| #[trigger] ids_of(worklist@).contains(n) ==> is_reachable(self, n) && universe.contains(n),
                            forall|n: Seq<char>| self.entry_points().contains(n) ==> #[trigger] ids_of(reachable@).contains(n) || ids_of(worklist@).contains(n),
                            forall|a: Seq<char>, b: Seq<char>| ids_of(reachable@).contains(a) && a != name && #[trigger] self.refers(a, b) ==> ids_of(reachable@).contains(b) || ids_of(worklist@).contains(b),
                            forall|k: int| 0 <= k < j ==> ids_of(reachable@).contains(#[trigger] targets@[k]@) || ids_of(worklist@).contains(targets@[k]@),
                        decreases targets@.len() - j,
                    {
                        let target = &targets[j];
                        proof {
                            assert(ids_of(targets@)[j as int] == target@);
                            assert(self.refers(name, target@));
                            law_references_keep_reachability(self, name, target@);
                            lemma_refers_listed(self, name, target@);
                        }
                        if !contains_id(&reachable, target) {
                            let ghost pending = worklist@;
                            worklist.push(target.copy_key());
                            proof {
                                lemma_push_ids(pending, worklist@.last());
                                assert(worklist@ == pending.push(worklist@.last()));
                            }
                        }
                        j = j + 1;
                    }
                    proof {
                        assert forall|b: Seq<char>| #[trigger] self.refers(name, b) implies ids_of(reachable@).contains(b)
                            || ids_of(worklist@).contains(b) by {
                            let k = choose|k: int| 0 <= k < ids_of(targets@).len() && ids_of(targets@)[k] == b;
                            assert(targets@[k]@ == b);
                        }
                    }
                },
                None => {
                    proof {
                        lemma_map_of_domain(self.edges@);
                        assert(!map_of(self.edges@).contains_key(name));
                    }
                },
            }
        }
        proof {
            assert forall|name: Seq<char>| #[trigger] ids_of(reachable@).contains(name) <==> is_reachable(self, name) by {
                if is_reachable(self, name) {
                    let path = choose|path: Seq<Seq<char>>| #[trigger] leads(self, path) && path.last() == name;
                    let closed = ids_of(reachable@).to_set();
                    assert forall|a: Seq<char>, b: Seq<char>| closed.contains(a) && #[trigger] self.refers(a, b) implies closed.contains(b) by {
                        assert(ids_of(reachable@).contains(a));
                    }
                    lemma_closed_holds_reachable(self, closed, path);
                }
            }
        }
        reachable
    }
}

} // verus!

verus! {

/// The names of the referenced ids, in order.
pub open spec fn ref_ids_of(ids: Seq<&ModuleItemId>) -> Seq<Seq<char>> {
    ids.map_values(|id: &ModuleItemId| id@)
}

/// The spans a table records, in its order.
pub open spec fn spans_of<K>(entries: Seq<(K, Span)>) -> Seq<Span> {
    entries.map_values(|entry: (K, Span)| entry.1)
}

/// A table with names held once lists the values of the map it is read as.
proof fn lemma_table_values<K: View>(entries: Seq<(K, Span)>)
    requires
        keys_of(entries).no_duplicates(),
    ensures
        lists_values(spans_of(entries), map_of(entries)),
{
    let keys = keys_of(entries);
    lemma_map_of_domain(entries);
    assert(keys.to_set() =~= map_of(entries).dom());
    assert forall|i: int| 0 <= i < entries.len() implies spans_of(entries)[i] == map_of(entries)[#[trigger] keys[i]] by {
        lemma_map_of_entry(entries, i);
    }
    assert(spans_of(entries) =~= keys.map_values(|k: K::V| map_of(entries)[k]));
}

/// The spans in a table, in its order.
fn table_spans<K>(entries: &Vec<(K, Span)>) -> (spans: Vec<Span>)
    ensures
        spans@ == spans_of(entries@),
{
    let mut spans: Vec<Span> = Vec::new();
    let mut i: usize = 0;
    while i < entries.len()
        invariant
            i <= entries@.len(),
            spans@ == spans_of(entries@).take(i as int),
        decreases entries@.len() - i,
    {
        spans.push(entries[i].1);
        proof {
            assert(spans_of(entries@).take(i + 1) =~= spans_of(entries@).take(i as int).push(entries@[i as int].1));
        }
        i = i + 1;
    }
    proof {
        assert(spans_of(entries@).take(i as int) =~= spans_of(entries@));
    }
    spans
}

impl ReferenceGraph {
    /// The registered items that no chain of references reaches from an
    /// entry point, each once.
    pub fn get_unreachable(&self) -> (unreachable: Vec<&ModuleItemId>)
        ensures
            ref_ids_of(unreachable@).no_duplicates(),
            forall|name: Seq<char>| #[trigger] ref_ids_of(unreachable@).contains(name) <==> (self.items().contains_key(name)
                && !is_reachable(self, name)),
    {
        proof {
            use_type_invariant(self);
            lemma_map_of_domain(self.items@);
        }
        let reachable = self.compute_reachable();
        let mut unreachable: Vec<&ModuleItemId> = Vec::new();
        let mut i: usize = 0;
        while i < self.items.len()
            invariant
                i <= self.items@.len(),
                keys_of(self.items@).no_duplicates(),
                forall|name: Seq<char>| #[trigger] ids_of(reachable@).contains(name) <==> is_reachable(self, name),
                ref_ids_of(unreachable@).no_duplicates(),
                forall|name: Seq<char>| #[trigger] ref_ids_of(unreachable@).contains(name) <==> (keys_of(self.items@).take(i as int).contains(name)
                    && !is_reachable(self, name)),
            decreases self.items@.len() - i,
        {
            let id = &self.items[i].0;
            let ghost before = unreachable@;
            let ghost seen = keys_of(self.items@).take(i as int);
            proof {
                assert(keys_of(self.items@).take(i + 1) =~= seen.push(id@));
                assert forall|name: Seq<char>| #[trigger] seen.push(id@).contains(name) <==> (seen.contains(name) || name == id@) by {
                    if seen.push(id@).contains(name) {
                        let j = choose|j: int| 0 <= j < seen.push(id@).len() && seen.push(id@)[j] == name;
                        if j < seen.len() {
                            assert(seen[j] == name);
                        }
                    }
                    if seen.contains(name) {
                        let j = choose|j: int| 0 <= j < seen.len() && seen[j] == name;
                        assert(seen.push(id@)[j] == name);
                    }
                    assert(seen.push(id@)[seen.len() as int] == id@);
                }
                assert(!seen.contains(id@)) by {
                    if seen.contains(id@) {
                        let j = choose|j: int| 0 <= j < seen.len() && seen[j] == id@;
                        assert(keys_of(self.items@)[j] == keys_of(self.items@)[i as int]);
                    }
                }
            }
            if !contains_id(&reachable, id) {
                unreachable.push(id);
                proof {
                    assert(ref_ids_of(unreachable@) =~= ref_ids_of(before).push(id@));
                    assert(!ref_ids_of(before).contains(id@));
                    assert forall|a: int, b: int| 0 <= a < b < ref_ids_of(unreachable@).len() implies ref_ids_of(unreachable@)[a]
                        != ref_ids_of(unreachable@)[b] by {
                        assert(ref_ids_of(unreachable@)[a] == ref_ids_of(before)[a]);
                        if b < before.len() {
                            assert(ref_ids_of(unreachable@)[b] == ref_ids_of(before)[b]);
                        }
                    }
                    assert forall|name: Seq<char>| #[trigger] ref_ids_of(unreachable@).contains(name) <==> (ref_ids_of(before).contains(name)
                        || name == id@) by {
                        if ref_ids_of(unreachable@).contains(name) {
                            let j = choose|j: int| 0 <= j < ref_ids_of(unreachable@).len() && ref_ids_of(unreachable@)[j] == name;
                            if j < before.len() {
                                assert(ref_ids_of(before)[j] == name);
                            }
                        }
                        if ref_ids_of(before).contains(name) {
                            let j = choose|j: int| 0 <= j < ref_ids_of(before).len() && ref_ids_of(before)[j] == name;
                            assert(ref_ids_of(unreachable@)[j] == name);
                        }
                        assert(ref_ids_of(unreachable@)[before.len() as int] == id@);
                    }
                }
            }
            i = i + 1;
        }
        proof {
            assert(keys_of(self.items@).take(i as int) =~= keys_of(self.items@));
        }
        unreachable
    }

    /// The declarations of the struct fields not used yet, one per field.
    pub fn get_unused_struct_fields(&self) -> (spans: Vec<Span>)
        ensures
            lists_values(spans@, self.unused_fields()),
    {
        proof {
            use_type_invariant(self);
            lemma_table_values(self.unused_struct_fields@);
        }
        table_spans(&self.unused_struct_fields)
    }

    /// The declarations of the enum variants not used yet, one per variant.
    pub fn get_unused_enum_variants(&self) -> (spans: Vec<Span>)
        ensures
            lists_values(spans@, self.unused_variants()),
    {
        proof {
            use_type_invariant(self);
            lemma_table_values(self.unused_enum_variants@);
        }
        table_spans(&self.unused_enum_variants)
    }
}

} // verus!
