//! A struct or enum definition, and what is read off it as a whole: its
//! name, which of serde's two traits it derives, and its fields in one
//! sequence.

pub mod fields;

use vstd::prelude::*;
use crate::error::{ExpansionError, ExpansionErrorView};
use crate::item::fields::{
    classify, strip_directives, stripped, BigArrayField, BigArrayFieldView,
};
use crate::syntax::{
    option_view, result_view, views, Attribute, AttributeView, Field, FieldView, Meta, MetaView,
    NestedMeta, NestedMetaView,
};

verus! {

/// Whether one entry of a `derive` list names the trait `marker`: it is a
/// path whose last segment is `marker`, so `Serialize` and `serde::Serialize`
/// both name it.
pub open spec fn entry_names(entry: NestedMetaView, marker: Seq<char>) -> bool {
    entry matches NestedMetaView::Path(path) && path.ends_with(marker)
}

/// Whether an attribute is a `derive` that names the trait `marker`.
pub open spec fn attr_derives(attr: AttributeView, marker: Seq<char>) -> bool {
    &&& attr.path.is_ident("derive"@)
    &&& attr.meta matches MetaView::List(entries)
    &&& exists|j: int| 0 <= j < entries.len() && entry_names(#[trigger] entries[j], marker)
}

/// Whether one of the attributes is a `derive` that names the trait `marker`.
pub open spec fn derives(attrs: Seq<AttributeView>, marker: Seq<char>) -> bool {
    exists|i: int| 0 <= i < attrs.len() && attr_derives(#[trigger] attrs[i], marker)
}

fn entry_names_marker(entry: &NestedMeta, marker: &str) -> (yes: bool)
    ensures
        yes == entry_names(entry@, marker@),
{
    match entry {
        NestedMeta::Path(path) => path.ends_with(marker),
        _ => false,
    }
}

fn attr_derives_marker(attr: &Attribute, marker: &str) -> (yes: bool)
    ensures
        yes == attr_derives(attr@, marker@),
{
    if !attr.path.is_ident("derive") {
        return false;
    }
    match &attr.meta {
        Meta::List(entries) => {
            let mut j: usize = 0;
            while j < entries.len()
                invariant
                    j <= entries.len(),
                    attr@.meta == MetaView::List(views(entries@)),
                    attr@.path.is_ident("derive"@),
                    forall|k: int|
                        0 <= k < j ==> !entry_names(#[trigger] views(entries@)[k], marker@),
                decreases entries.len() - j,
            {
                if entry_names_marker(&entries[j], marker) {
                    proof {
                        let listed = views(entries@);
                        assert(entry_names(listed[j as int], marker@));
                        assert(attr@.meta matches MetaView::List(es) && es == listed);
                    }
                    return true;
                }
                j += 1;
            }
            false
        },
        _ => false,
    }
}

/// Searches a list of attributes for derives of `Serialize` and of
/// `Deserialize`.
pub fn check_if_serializing_deserializing(attrs: &Vec<Attribute>) -> (found: (bool, bool))
    ensures
        found.0 == derives(views(attrs@), "Serialize"@),
        found.1 == derives(views(attrs@), "Deserialize"@),
{
    let mut serialize = false;
    let mut deserialize = false;
    let mut i: usize = 0;
    while i < attrs.len()
        invariant
            i <= attrs.len(),
            serialize == derives(views(attrs@).take(i as int), "Serialize"@),
            deserialize == derives(views(attrs@).take(i as int), "Deserialize"@),
        decreases attrs.len() - i,
    {
        let ghost before = views(attrs@).take(i as int);
        let ghost after = views(attrs@).take(i + 1);
        let here_serialize = attr_derives_marker(&attrs[i], "Serialize");
        let here_deserialize = attr_derives_marker(&attrs[i], "Deserialize");
        proof {
            lemma_derives_push(before, attrs@[i as int]@, "Serialize"@);
            lemma_derives_push(before, attrs@[i as int]@, "Deserialize"@);
            assert(after =~= before.push(attrs@[i as int]@));
        }
        serialize = serialize || here_serialize;
        deserialize = deserialize || here_deserialize;
        i += 1;
    }
    proof {
        assert(views(attrs@).take(i as int) =~= views(attrs@));
    }
    (serialize, deserialize)
}

/// A list with one more attribute derives a trait where the list did or
/// where the new attribute does.
pub proof fn lemma_derives_push(attrs: Seq<AttributeView>, attr: AttributeView, marker: Seq<char>)
    ensures
        derives(attrs.push(attr), marker) == (derives(attrs, marker) || attr_derives(
            attr,
            marker,
        )),
{
    let longer = attrs.push(attr);
    if derives(attrs, marker) {
        let i = choose|i: int| 0 <= i < attrs.len() && attr_derives(#[trigger] attrs[i], marker);
        assert(attr_derives(longer[i], marker));
    }
    if attr_derives(attr, marker) {
        assert(attr_derives(longer[attrs.len() as int], marker));
    }
    if derives(longer, marker) {
        let i = choose|i: int| 0 <= i < longer.len() && attr_derives(#[trigger] longer[i], marker);
        if i < attrs.len() {
            assert(attr_derives(attrs[i], marker));
        }
    }
}

/// What is read off a definition before its fields are looked at.
#[derive(Clone, Debug, PartialEq, Eq)]
pub struct Context {
    pub type_ident: String,
    pub serialize: bool,
    pub deserialize: bool,
}

pub struct ContextView {
    pub type_ident: Seq<char>,
    pub serialize: bool,
    pub deserialize: bool,
}

impl View for Context {
    type V = ContextView;

    open spec fn view(&self) -> ContextView {
        ContextView {
            type_ident: self.type_ident@,
            serialize: self.serialize,
            deserialize: self.deserialize,
        }
    }
}

/// A struct, with named fields, positional fields or none.
#[derive(Clone, Debug, PartialEq, Eq)]
pub struct ItemStruct {
    pub attrs: Vec<Attribute>,
    pub ident: String,
    /// The names of the type parameters, in order.
    pub type_params: Vec<String>,
    pub fields: Vec<Field>,
}

pub struct ItemStructView {
    pub attrs: Seq<AttributeView>,
    pub ident: Seq<char>,
    pub type_params: Seq<Seq<char>>,
    pub fields: Seq<FieldView>,
}

impl View for ItemStruct {
    type V = ItemStructView;

    open spec fn view(&self) -> ItemStructView {
        ItemStructView {
            attrs: views(self.attrs@),
            ident: self.ident@,
            type_params: views(self.type_params@),
            fields: views(self.fields@),
        }
    }
}

/// A variant of an enum, by its fields.
#[derive(Clone, Debug, PartialEq, Eq)]
pub struct Variant {
    pub fields: Vec<Field>,
}

pub struct VariantView {
    pub fields: Seq<FieldView>,
}

impl View for Variant {
    type V = VariantView;

    open spec fn view(&self) -> VariantView {
        VariantView { fields: views(self.fields@) }
    }
}

/// An enum.
#[derive(Clone, Debug, PartialEq, Eq)]
pub struct ItemEnum {
    pub attrs: Vec<Attribute>,
    pub ident: String,
    /// The names of the type parameters, in order.
    pub type_params: Vec<String>,
    pub variants: Vec<Variant>,
}

pub struct ItemEnumView {
    pub attrs: Seq<AttributeView>,
    pub ident: Seq<char>,
    pub type_params: Seq<Seq<char>>,
    pub variants: Seq<VariantView>,
}

impl View for ItemEnum {
    type V = ItemEnumView;

    open spec fn view(&self) -> ItemEnumView {
        ItemEnumView {
            attrs: views(self.attrs@),
            ident: self.ident@,
            type_params: views(self.type_params@),
            variants: views(self.variants@),
        }
    }
}

/// The fields of all variants in one sequence: those of the first variant
/// first, each variant's in their own order.
pub open spec fn flatten(variants: Seq<VariantView>) -> Seq<FieldView>
    decreases variants.len(),
{
    if variants.len() == 0 {
        Seq::empty()
    } else {
        flatten(variants.drop_last()) + variants.last().fields
    }
}

/// A definition that this crate handles.
#[derive(Clone, Debug, PartialEq, Eq)]
pub enum Item {
    Struct(ItemStruct),
    Enum(ItemEnum),
}

pub enum ItemView {
    Struct(ItemStructView),
    Enum(ItemEnumView),
}

impl ItemView {
    pub open spec fn ident(self) -> Seq<char> {
        match self {
            ItemView::Struct(s) => s.ident,
            ItemView::Enum(e) => e.ident,
        }
    }

    pub open spec fn attrs(self) -> Seq<AttributeView> {
        match self {
            ItemView::Struct(s) => s.attrs,
            ItemView::Enum(e) => e.attrs,
        }
    }

    pub open spec fn type_params(self) -> Seq<Seq<char>> {
        match self {
            ItemView::Struct(s) => s.type_params,
            ItemView::Enum(e) => e.type_params,
        }
    }

    /// All fields of the definition in one sequence. The position of a field
    /// in it is the index of the field.
    pub open spec fn fields(self) -> Seq<FieldView> {
        match self {
            ItemView::Struct(s) => s.fields,
            ItemView::Enum(e) => flatten(e.variants),
        }
    }

    /// The name of the definition, and which of serde's traits it derives.
    pub open spec fn context(self) -> ContextView {
        ContextView {
            type_ident: self.ident(),
            serialize: derives(self.attrs(), "Serialize"@),
            deserialize: derives(self.attrs(), "Deserialize"@),
        }
    }
}

impl View for Item {
    type V = ItemView;

    open spec fn view(&self) -> ItemView {
        match self {
            Item::Struct(s) => ItemView::Struct(s@),
            Item::Enum(e) => ItemView::Enum(e@),
        }
    }
}

/// Any definition that the attribute may stand on.
#[derive(Clone, Debug, PartialEq, Eq)]
pub enum Definition {
    Struct(ItemStruct),
    Enum(ItemEnum),
    /// A function, a union, a trait, and so on.
    Other,
}

pub enum DefinitionView {
    Struct(ItemStructView),
    Enum(ItemEnumView),
    Other,
}

impl DefinitionView {
    /// The definition as one that this crate handles, if it is one.
    pub open spec fn item(self) -> Result<ItemView, ExpansionErrorView> {
        match self {
            DefinitionView::Struct(s) => Ok(ItemView::Struct(s)),
            DefinitionView::Enum(e) => Ok(ItemView::Enum(e)),
            DefinitionView::Other => Err(ExpansionErrorView::UnsupportedItem),
        }
    }
}

impl View for Definition {
    type V = DefinitionView;

    open spec fn view(&self) -> DefinitionView {
        match self {
            Definition::Struct(s) => DefinitionView::Struct(s@),
            Definition::Enum(e) => DefinitionView::Enum(e@),
            Definition::Other => DefinitionView::Other,
        }
    }
}

/// The classification of every field, or the first refusal.
pub type Plan = Result<Seq<Option<BigArrayFieldView>>, ExpansionErrorView>;

/// The classifications of `fields`, each at its position, in order. Where a
/// field is refused, the first refusal is the outcome.
pub open spec fn plan(fields: Seq<FieldView>) -> Plan
    decreases fields.len(),
{
    if fields.len() == 0 {
        Ok(Seq::empty())
    } else {
        match plan(fields.drop_last()) {
            Err(error) => Err(error),
            Ok(before) => match classify(fields.last(), (fields.len() - 1) as nat) {
                Err(error) => Err(error),
                Ok(outcome) => Ok(before.push(outcome)),
            },
        }
    }
}

/// The view of a plan that the executable code holds.
pub open spec fn plan_view(plan: Seq<Option<BigArrayField>>) -> Seq<Option<BigArrayFieldView>> {
    plan.map_values(|outcome: Option<BigArrayField>| option_view(outcome))
}

/// The big arrays of a plan, in order.
pub open spec fn chosen(plan: Seq<Option<BigArrayFieldView>>) -> Seq<BigArrayFieldView>
    decreases plan.len(),
{
    if plan.len() == 0 {
        Seq::empty()
    } else {
        match plan.last() {
            Some(field) => chosen(plan.drop_last()).push(field),
            None => chosen(plan.drop_last()),
        }
    }
}

/// A refusal among the first `k` fields is the outcome for all of them.
pub proof fn lemma_plan_refused(fields: Seq<FieldView>, k: int)
    requires
        0 <= k <= fields.len(),
        plan(fields.take(k)) is Err,
    ensures
        plan(fields) == plan(fields.take(k)),
    decreases fields.len(),
{
    if k == fields.len() {
        assert(fields.take(k) =~= fields);
    } else {
        assert(fields.drop_last().take(k) =~= fields.take(k));
        lemma_plan_refused(fields.drop_last(), k);
    }
}

/// A plan holds one outcome for each field: the classification of that
/// field at its position.
pub proof fn lemma_plan_positions(fields: Seq<FieldView>)
    requires
        plan(fields) is Ok,
    ensures
        plan(fields)->Ok_0.len() == fields.len(),
        forall|i: int|
            0 <= i < fields.len() ==> classify(#[trigger] fields[i], i as nat) == Ok::<
                Option<BigArrayFieldView>,
                ExpansionErrorView,
            >(plan(fields)->Ok_0[i]),
    decreases fields.len(),
{
    if fields.len() > 0 {
        lemma_plan_positions(fields.drop_last());
        assert forall|i: int| 0 <= i < fields.len() implies classify(
            #[trigger] fields[i],
            i as nat,
        ) == Ok::<Option<BigArrayFieldView>, ExpansionErrorView>(plan(fields)->Ok_0[i]) by {
            if i < fields.len() - 1 {
                assert(fields.drop_last()[i] == fields[i]);
            }
        }
    }
}

/// The fields without this crate's own attributes.
pub open spec fn strip_fields(fields: Seq<FieldView>) -> Seq<FieldView> {
    fields.map_values(|field: FieldView| stripped(field))
}

pub open spec fn strip_variant(variant: VariantView) -> VariantView {
    VariantView { fields: strip_fields(variant.fields) }
}

impl ItemView {
    /// The definition with this crate's own attributes taken off every
    /// field.
    pub open spec fn stripped(self) -> ItemView {
        match self {
            ItemView::Struct(s) => ItemView::Struct(
                ItemStructView { fields: strip_fields(s.fields), ..s },
            ),
            ItemView::Enum(e) => ItemView::Enum(
                ItemEnumView {
                    variants: e.variants.map_values(|variant: VariantView| strip_variant(variant)),
                    ..e
                },
            ),
        }
    }
}

fn strip_all(fields: &mut Vec<Field>)
    ensures
        views(final(fields)@) == strip_fields(views(old(fields)@)),
{
    let ghost original = views(fields@);
    let mut i: usize = 0;
    while i < fields.len()
        invariant
            i <= fields.len(),
            fields@.len() == original.len(),
            forall|k: int| 0 <= k < i ==> (#[trigger] fields@[k])@ == stripped(original[k]),
            forall|k: int| i <= k < fields@.len() ==> (#[trigger] fields@[k])@ == original[k],
        decreases fields.len() - i,
    {
        strip_directives(&mut fields[i].attrs);
        i += 1;
    }
    assert(views(fields@) =~= strip_fields(original));
}

impl Item {
    /// Accepts structs and enums, and nothing else.
    pub fn parse(input: Definition) -> (item: Result<Item, ExpansionError>)
        ensures
            result_view(item) == input@.item(),
    {
        match input {
            Definition::Struct(s) => Ok(Item::Struct(s)),
            Definition::Enum(e) => Ok(Item::Enum(e)),
            Definition::Other => Err(ExpansionError::UnsupportedItem),
        }
    }

    /// The name of the definition.
    pub fn ident(&self) -> (ident: &String)
        ensures
            ident@ == self@.ident(),
    {
        match self {
            Item::Struct(s) => &s.ident,
            Item::Enum(e) => &e.ident,
        }
    }

    /// The attributes of the definition itself.
    pub fn attrs(&self) -> (attrs: &Vec<Attribute>)
        ensures
            views(attrs@) == self@.attrs(),
    {
        match self {
            Item::Struct(s) => &s.attrs,
            Item::Enum(e) => &e.attrs,
        }
    }

    /// The names of the type parameters of the definition.
    pub fn type_params(&self) -> (params: &Vec<String>)
        ensures
            views(params@) == self@.type_params(),
    {
        match self {
            Item::Struct(s) => &s.type_params,
            Item::Enum(e) => &e.type_params,
        }
    }

    /// The name of the definition, and which of serde's traits it derives.
    pub fn context(&self) -> (context: Context)
        ensures
            context@ == self@.context(),
    {
        let (serialize, deserialize) = check_if_serializing_deserializing(self.attrs());
        Context { type_ident: self.ident().clone(), serialize, deserialize }
    }

    /// The fields of the definition in one list, in the order of their
    /// indices.
    pub fn fields(&self) -> (fields: Vec<&Field>)
        ensures
            views(fields@) == self@.fields(),
    {
        let mut all: Vec<&Field> = Vec::new();
        match self {
            Item::Struct(s) => {
                let mut i: usize = 0;
                while i < s.fields.len()
                    invariant
                        i <= s.fields.len(),
                        views(all@) == views(s.fields@).take(i as int),
                    decreases s.fields.len() - i,
                {
                    let ghost before = all@;
                    all.push(&s.fields[i]);
                    i += 1;
                    proof {
                        let target = views(s.fields@).take(i as int);
                        assert(views(before).len() == before.len());
                        assert(views(all@).len() == i);
                        assert forall|k: int| 0 <= k < i implies views(all@)[k] == target[k] by {
                            if k < i - 1 {
                                assert(views(before)[k] == views(s.fields@).take(i - 1)[k]);
                            }
                        }
                        assert(views(all@) =~= target);
                    }
                }
                assert(views(s.fields@).take(i as int) =~= views(s.fields@));
            },
            Item::Enum(e) => {
                let mut v: usize = 0;
                while v < e.variants.len()
                    invariant
                        v <= e.variants.len(),
                        views(all@) == flatten(views(e.variants@).take(v as int)),
                    decreases e.variants.len() - v,
                {
                    let variant = &e.variants[v];
                    let ghost before = views(all@);
                    let mut i: usize = 0;
                    assert(views(all@) =~= before + views(variant.fields@).take(0));
                    while i < variant.fields.len()
                        invariant
                            i <= variant.fields.len(),
                            views(all@) == before + views(variant.fields@).take(i as int),
                        decreases variant.fields.len() - i,
                    {
                        let ghost held = all@;
                        all.push(&variant.fields[i]);
                        i += 1;
                        proof {
                            let target = before + views(variant.fields@).take(i as int);
                            assert(views(held).len() == held.len());
                            assert(views(all@).len() == target.len());
                            assert forall|k: int| 0 <= k < target.len() implies views(all@)[k]
                                == target[k] by {
                                if k < target.len() - 1 {
                                    assert(views(held)[k] == (before + views(
                                        variant.fields@,
                                    ).take(i - 1))[k]);
                                }
                            }
                            assert(views(all@) =~= target);
                        }
                    }
                    proof {
                        assert(views(variant.fields@).take(i as int) =~= variant@.fields);
                        let upto = views(e.variants@).take(v + 1);
                        assert(upto.drop_last() =~= views(e.variants@).take(v as int));
                        assert(upto.last() == variant@);
                    }
                    v += 1;
                }
                assert(views(e.variants@).take(v as int) =~= views(e.variants@));
            },
        }
        all
    }
}

impl Item {
    /// Classifies every field, in the order of the indices.
    pub fn classify_all(&self) -> (outcome: Result<Vec<Option<BigArrayField>>, ExpansionError>)
        ensures
            match outcome {
                Ok(found) => plan(self@.fields()) == Ok::<
                    Seq<Option<BigArrayFieldView>>,
                    ExpansionErrorView,
                >(plan_view(found@)),
                Err(error) => plan(self@.fields()) == Err::<
                    Seq<Option<BigArrayFieldView>>,
                    ExpansionErrorView,
                >(error@),
            },
    {
        let fields = self.fields();
        let ghost all = views(fields@);
        let mut found: Vec<Option<BigArrayField>> = Vec::new();
        let mut i: usize = 0;
        proof {
            assert(all.take(0) =~= Seq::empty());
            assert(plan_view(found@) =~= Seq::empty());
        }
        while i < fields.len()
            invariant
                i <= fields.len(),
                all == views(fields@),
                all == self@.fields(),
                found@.len() == i,
                plan(all.take(i as int)) == Ok::<
                    Seq<Option<BigArrayFieldView>>,
                    ExpansionErrorView,
                >(plan_view(found@)),
            decreases fields.len() - i,
        {
            proof {
                assert(all.take(i + 1).drop_last() =~= all.take(i as int));
                assert(all.take(i + 1).last() == fields@[i as int]@);
            }
            let ghost before = found@;
            match BigArrayField::classify(fields[i], i) {
                Ok(outcome) => {
                    found.push(outcome);
                    assert(plan_view(found@) =~= plan_view(before).push(option_view(outcome)));
                },
                Err(error) => {
                    proof {
                        lemma_plan_refused(all, i + 1);
                    }
                    return Err(error);
                },
            }
            i += 1;
        }
        proof {
            assert(all.take(i as int) =~= all);
        }
        Ok(found)
    }

    /// The big array fields of the definition, in the order of their
    /// indices. Unless a field is refused, this crate's own attributes are
    /// taken off every field.
    pub fn big_array_fields(&mut self) -> (outcome: Result<Vec<BigArrayField>, ExpansionError>)
        ensures
            match outcome {
                Ok(found) => {
                    &&& plan(old(self)@.fields()) matches Ok(all)
                    &&& views(found@) == chosen(all)
                    &&& final(self)@ == old(self)@.stripped()
                },
                Err(error) => {
                    &&& plan(old(self)@.fields()) == Err::<
                        Seq<Option<BigArrayFieldView>>,
                        ExpansionErrorView,
                    >(error@)
                    &&& final(self)@ == old(self)@
                },
            },
    {
        let all = match self.classify_all() {
            Ok(all) => all,
            Err(error) => {
                return Err(error);
            },
        };
        match self {
            Item::Struct(s) => {
                strip_all(&mut s.fields);
            },
            Item::Enum(e) => {
                let ghost original = views(e.variants@);
                let mut v: usize = 0;
                while v < e.variants.len()
                    invariant
                        v <= e.variants.len(),
                        e.variants@.len() == original.len(),
                        e.attrs == old(self)->Enum_0.attrs,
                        e.ident == old(self)->Enum_0.ident,
                        e.type_params == old(self)->Enum_0.type_params,
                        original == views(old(self)->Enum_0.variants@),
                        forall|k: int|
                            0 <= k < v ==> (#[trigger] e.variants@[k])@ == strip_variant(
                                original[k],
                            ),
                        forall|k: int|
                            v <= k < e.variants@.len() ==> (#[trigger] e.variants@[k])@
                                == original[k],
                    decreases e.variants.len() - v,
                {
                    strip_all(&mut e.variants[v].fields);
                    v += 1;
                }
                assert(views(e.variants@) =~= original.map_values(
                    |variant: VariantView| strip_variant(variant),
                ));
            },
        }
        Ok(select(all))
    }
}

/// Keeps the big arrays of a plan.
fn select(plan: Vec<Option<BigArrayField>>) -> (found: Vec<BigArrayField>)
    ensures
        views(found@) == chosen(plan_view(plan@)),
{
    let mut found: Vec<BigArrayField> = Vec::new();
    let ghost all = plan@;
    for outcome in it: plan
        invariant
            it.seq() == all,
            views(found@) == chosen(plan_view(all).take(it.index() as int)),
    {
        proof {
            let upto = plan_view(all).take(it.index() + 1);
            assert(upto.drop_last() =~= plan_view(all).take(it.index() as int));
            assert(upto.last() == option_view(outcome));
        }
        let ghost before = found@;
        match outcome {
            Some(field) => {
                found.push(field);
                assert(views(found@) =~= views(before).push(field@));
            },
            None => {},
        }
    }
    proof {
        assert(plan_view(all).take(all.len() as int) =~= plan_view(all));
    }
    found
}

} // verus!
