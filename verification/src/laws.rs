//! What holds of every classification and of every expansion.

use vstd::prelude::*;
use crate::codegen::{
    direction_functions, direction_hooks, functions_for, hooks_for, wanted, with_hook,
    GeneratedFunctionView,
};
use crate::error::ExpansionErrorView;
use crate::item::fields::{
    attr_outcomes, classify, element_type, is_directive, lemma_outcomes_split,
    lemma_scan_concat,
    lemma_scan_final, outcomes, scan, settings_of, step, strip, survives, type_len,
    BigArrayFieldView, EffectView, Progress, SettingsView, Source, THRESHOLD,
};
use crate::item::{
    flatten, lemma_plan_positions, plan, ContextView, ItemView, VariantView,
};
use crate::names::{fn_name, is_constant_name, lemma_fn_names_differ};
use crate::rewrite::{all_functions, offset, rewrite_fields, rewrite_item};
use crate::syntax::{
    ArrayLenView, AttributeView, Direction, ElementTypeView, FieldView, LitView, MetaView,
    NestedMetaView, PathView, TypeView,
};
use crate::text::decimal_value;

verus! {

/// Whether none of the attributes is of the given source.
pub open spec fn free_of(source: Source, attrs: Seq<AttributeView>) -> bool {
    forall|k: int| 0 <= k < attrs.len() ==> !(#[trigger] attrs[k]).path.is_ident(source.attribute())
}

/// Attributes of other names bring nothing.
pub proof fn lemma_free_of_brings_nothing(source: Source, attrs: Seq<AttributeView>)
    requires
        free_of(source, attrs),
    ensures
        outcomes(source, attrs) == Seq::<Result<EffectView, ExpansionErrorView>>::empty(),
    decreases attrs.len(),
{
    if attrs.len() > 0 {
        assert forall|k: int| 0 <= k < attrs.drop_last().len() implies !(
        #[trigger] attrs.drop_last()[k]).path.is_ident(source.attribute()) by {
            assert(attrs.drop_last()[k] == attrs[k]);
        }
        lemma_free_of_brings_nothing(source, attrs.drop_last());
        assert(!attrs[attrs.len() - 1].path.is_ident(source.attribute()));
        assert(outcomes(source, attrs) =~= Seq::empty());
    }
}

/// Whether serde accepts the field as far as this crate reads its serde
/// attributes: none of them is refused.
pub open spec fn accepted_by_serde(attrs: Seq<AttributeView>) -> bool {
    forall|k: int|
        0 <= k < outcomes(Source::Customizations, attrs).len() ==> (#[trigger] outcomes(
            Source::Customizations,
            attrs,
        )[k]) is Ok
}

/// Whether the serde attributes of the field leave both directions to this
/// crate: none of their arguments settles a direction, and none is refused.
/// A field without serde attributes is such a field, and so is one whose
/// serde attributes only rename it or give it a default.
pub open spec fn left_by_serde(attrs: Seq<AttributeView>) -> bool {
    forall|k: int|
        0 <= k < outcomes(Source::Customizations, attrs).len() ==> (#[trigger] outcomes(
            Source::Customizations,
            attrs,
        )[k]) == Ok::<EffectView, ExpansionErrorView>(EffectView::Nothing)
}

/// Outcomes that do nothing change nothing.
pub proof fn lemma_scan_nothing(
    from: Progress,
    brought: Seq<Result<EffectView, ExpansionErrorView>>,
)
    requires
        forall|k: int|
            0 <= k < brought.len() ==> (#[trigger] brought[k]) == Ok::<
                EffectView,
                ExpansionErrorView,
            >(EffectView::Nothing),
    ensures
        scan(from, brought) == from,
    decreases brought.len(),
{
    if brought.len() > 0 {
        assert forall|k: int| 0 <= k < brought.drop_last().len() implies (
        #[trigger] brought.drop_last()[k]) == Ok::<EffectView, ExpansionErrorView>(
            EffectView::Nothing,
        ) by {
            assert(brought.drop_last()[k] == brought[k]);
        }
        lemma_scan_nothing(from, brought.drop_last());
        assert(brought[brought.len() - 1] == Ok::<EffectView, ExpansionErrorView>(
            EffectView::Nothing,
        ));
    }
}

/// Whether an outcome leaves the reading going and the length as it is.
pub open spec fn keeps_len(outcome: Result<EffectView, ExpansionErrorView>) -> bool {
    outcome matches Ok(effect) && effect != EffectView::Skip && !(effect is SetLen)
}

/// Outcomes that are accepted, and that neither skip nor give a length,
/// leave the reading going and the length as it is.
pub proof fn lemma_scan_keeps_len(
    from: SettingsView,
    brought: Seq<Result<EffectView, ExpansionErrorView>>,
)
    requires
        forall|k: int| 0 <= k < brought.len() ==> keeps_len(#[trigger] brought[k]),
    ensures
        scan(Ok(Some(from)), brought) matches Ok(Some(settings)) && settings.len == from.len,
    decreases brought.len(),
{
    if brought.len() > 0 {
        assert forall|k: int| 0 <= k < brought.drop_last().len() implies keeps_len(
            #[trigger] brought.drop_last()[k],
        ) by {
            assert(brought.drop_last()[k] == brought[k]);
        }
        lemma_scan_keeps_len(from, brought.drop_last());
        assert(keeps_len(brought[brought.len() - 1]));
    }
}

/// A serde attribute never skips a field and never gives a length: what
/// it brings, where it is accepted, leaves the reading going and the length
/// as it is.
pub proof fn lemma_serde_keeps_len(attrs: Seq<AttributeView>)
    ensures
        forall|k: int|
            0 <= k < outcomes(Source::Customizations, attrs).len() && (#[trigger] outcomes(
                Source::Customizations,
                attrs,
            )[k]) is Ok ==> keeps_len(outcomes(Source::Customizations, attrs)[k]),
    decreases attrs.len(),
{
    let source = Source::Customizations;
    if attrs.len() > 0 {
        lemma_serde_keeps_len(attrs.drop_last());
        let earlier = outcomes(source, attrs.drop_last());
        let here = attr_outcomes(source, attrs.last());
        assert forall|k: int|
            0 <= k < outcomes(source, attrs).len() && (#[trigger] outcomes(source, attrs)[k])
                is Ok implies keeps_len(outcomes(source, attrs)[k]) by {
            if k < earlier.len() {
                assert(outcomes(source, attrs)[k] == earlier[k]);
            } else {
                assert(outcomes(source, attrs)[k] == here[k - earlier.len()]);
            }
        }
    }
}

/// Without directives, and with serde attributes that leave both
/// directions to this crate, both directions are open and the type decides
/// the length.
pub proof fn lemma_plain_settings(attrs: Seq<AttributeView>)
    requires
        free_of(Source::Directives, attrs),
        left_by_serde(attrs),
    ensures
        settings_of(attrs) == Ok::<Option<SettingsView>, ExpansionErrorView>(
            Some(SettingsView::initial()),
        ),
{
    lemma_free_of_brings_nothing(Source::Directives, attrs);
    lemma_scan_nothing(
        Ok(Some(SettingsView::initial())),
        outcomes(Source::Customizations, attrs),
    );
}

/// An array field whose length is a literal above the threshold, which has
/// no directives, and whose serde attributes leave both directions to this
/// crate, is a big array with both directions; where the definition derives
/// both traits, a serialize and a deserialize function are generated for it,
/// in this order.
pub proof fn law_big_array_gets_both_functions(
    field: FieldView,
    index: nat,
    elem: ElementTypeView,
    digits: Seq<char>,
    n: nat,
    context: ContextView,
)
    requires
        free_of(Source::Directives, field.attrs),
        left_by_serde(field.attrs),
        field.ty == TypeView::Array(elem, ArrayLenView::Int(digits)),
        decimal_value(digits) == Some(n),
        THRESHOLD < n <= usize::MAX,
        context.serialize,
        context.deserialize,
    ensures
        classify(field, index) == Ok::<Option<BigArrayFieldView>, ExpansionErrorView>(
            Some(
                BigArrayFieldView {
                    index,
                    len: digits,
                    serialize: true,
                    deserialize: true,
                    element_type: Some(elem),
                },
            ),
        ),
        functions_for(context, classify(field, index)->Ok_0) == seq![
            GeneratedFunctionView {
                name: fn_name(Direction::Serialize, context.type_ident, index),
                direction: Direction::Serialize,
                index,
                len: digits,
            },
            GeneratedFunctionView {
                name: fn_name(Direction::Deserialize, context.type_ident, index),
                direction: Direction::Deserialize,
                index,
                len: digits,
            },
        ],
{
    lemma_plain_settings(field.attrs);
    let big = classify(field, index)->Ok_0->Some_0;
    assert(direction_functions(context, big, Direction::Serialize) + direction_functions(
        context,
        big,
        Direction::Deserialize,
    ) =~= seq![
        GeneratedFunctionView {
            name: fn_name(Direction::Serialize, context.type_ident, index),
            direction: Direction::Serialize,
            index,
            len: digits,
        },
        GeneratedFunctionView {
            name: fn_name(Direction::Deserialize, context.type_ident, index),
            direction: Direction::Deserialize,
            index,
            len: digits,
        },
    ]);
}

/// An array field whose length is a literal up to the threshold, which has
/// no directives, and whose serde attributes are accepted, is no big array:
/// no function is generated for it and no attribute is added to it.
pub proof fn law_small_array_gets_nothing(
    field: FieldView,
    index: nat,
    elem: ElementTypeView,
    digits: Seq<char>,
    n: nat,
    context: ContextView,
    type_params: Seq<Seq<char>>,
)
    requires
        free_of(Source::Directives, field.attrs),
        accepted_by_serde(field.attrs),
        field.ty == TypeView::Array(elem, ArrayLenView::Int(digits)),
        decimal_value(digits) == Some(n),
        n <= THRESHOLD,
    ensures
        classify(field, index) == Ok::<Option<BigArrayFieldView>, ExpansionErrorView>(None),
        functions_for(context, classify(field, index)->Ok_0) == Seq::<
            GeneratedFunctionView,
        >::empty(),
        hooks_for(context, type_params, classify(field, index)->Ok_0).len() == 0,
{
    lemma_free_of_brings_nothing(Source::Directives, field.attrs);
    lemma_serde_keeps_len(field.attrs);
    lemma_scan_keeps_len(SettingsView::initial(), outcomes(Source::Customizations, field.attrs));
}

/// Where all attributes but the one at `i` are of other names, what the
/// attributes bring is what that one attribute brings.
pub proof fn lemma_outcomes_single(source: Source, attrs: Seq<AttributeView>, i: int)
    requires
        0 <= i < attrs.len(),
        forall|k: int|
            0 <= k < attrs.len() && k != i ==> !(#[trigger] attrs[k]).path.is_ident(
                source.attribute(),
            ),
    ensures
        outcomes(source, attrs) == attr_outcomes(source, attrs[i]),
{
    let before = attrs.take(i);
    let from = attrs.skip(i);
    let one = from.take(1);
    let after = from.skip(1);
    lemma_outcomes_split(source, attrs, i);
    lemma_outcomes_split(source, from, 1);
    assert forall|k: int| 0 <= k < before.len() implies !(#[trigger] before[k]).path.is_ident(
        source.attribute(),
    ) by {
        assert(before[k] == attrs[k]);
    }
    assert forall|k: int| 0 <= k < after.len() implies !(#[trigger] after[k]).path.is_ident(
        source.attribute(),
    ) by {
        assert(after[k] == attrs[i + 1 + k]);
    }
    lemma_free_of_brings_nothing(source, before);
    lemma_free_of_brings_nothing(source, after);
    assert(one.drop_last() =~= Seq::empty());
    assert(one.last() == attrs[i]);
    assert(outcomes(source, one.drop_last()) =~= Seq::empty());
    assert(outcomes(source, attrs) =~= attr_outcomes(source, attrs[i]));
}

/// Reading a single outcome is one step.
pub proof fn lemma_scan_one(from: Progress, outcome: Result<EffectView, ExpansionErrorView>)
    ensures
        scan(from, seq![outcome]) == step(from, outcome),
{
    let one = seq![outcome];
    assert(one.drop_last() =~= Seq::empty());
    assert(scan(from, one.drop_last()) == from);
}

/// A `bufsize` decides: where it is the only directive of a field, the
/// field is a big array of the length given, whatever its declared type is,
/// unless a serde attribute of the field is refused; and both directions are
/// open where the serde attributes leave them to this crate. A quoted value
/// is the name of a constant, and is refused where it is no name; any other
/// value is taken as it stands.
pub proof fn law_bufsize_decides(
    field: FieldView,
    index: nat,
    i: int,
    key: PathView,
    value: LitView,
)
    requires
        0 <= i < field.attrs.len(),
        field.attrs[i].path.is_ident("serbia"@),
        field.attrs[i].meta == MetaView::List(seq![NestedMetaView::NameValue(key, value)]),
        key.is_ident("bufsize"@),
        forall|k: int|
            0 <= k < field.attrs.len() && k != i ==> !(#[trigger] field.attrs[k]).path.is_ident(
                "serbia"@,
            ),
    ensures
        (value matches LitView::Str(name) && !is_constant_name(name)) ==> classify(field, index)
            == Err::<Option<BigArrayFieldView>, ExpansionErrorView>(
            ExpansionErrorView::InvalidConstantName(value->Str_0),
        ),
        !(value matches LitView::Str(name) && !is_constant_name(name)) && accepted_by_serde(
            field.attrs,
        ) ==> {
            &&& classify(field, index) matches Ok(Some(big))
            &&& big.index == index
            &&& big.len == match value {
                LitView::Str(name) => name,
                LitView::Other(tokens) => tokens,
            }
            &&& big.element_type == element_type(field.ty)
            &&& left_by_serde(field.attrs) ==> big.serialize && big.deserialize
        },
{
    let arg = NestedMetaView::NameValue(key, value);
    let start: Progress = Ok(Some(SettingsView::initial()));
    let serde = outcomes(Source::Customizations, field.attrs);
    lemma_outcomes_single(Source::Directives, field.attrs, i);
    let brought = attr_outcomes(Source::Directives, field.attrs[i]);
    assert(brought =~= seq![Source::Directives.effect(arg)]);
    lemma_scan_one(start, Source::Directives.effect(arg));
    match scan(start, brought) {
        Ok(Some(settings)) => {
            if accepted_by_serde(field.attrs) {
                lemma_serde_keeps_len(field.attrs);
                lemma_scan_keeps_len(settings, serde);
                if left_by_serde(field.attrs) {
                    lemma_scan_nothing(Ok(Some(settings)), serde);
                }
            }
        },
        other => {
            lemma_scan_final(other, serde);
        },
    }
}

/// The flag that closes one direction.
pub open spec fn skip_flag(direction: Direction) -> Seq<char> {
    match direction {
        Direction::Serialize => "skip_serializing"@,
        Direction::Deserialize => "skip_deserializing"@,
    }
}

/// The other direction.
pub open spec fn opposite(direction: Direction) -> Direction {
    match direction {
        Direction::Serialize => Direction::Deserialize,
        Direction::Deserialize => Direction::Serialize,
    }
}

/// `skip_serializing` alone leaves the deserialize function and no other;
/// `skip_deserializing` alone leaves the serialize function and no other.
/// "Alone": it is the only directive of a field whose serde attributes
/// leave both directions to this crate; the field is one whose type gives a
/// length, and the definition derives both traits.
pub proof fn law_skip_one_direction(
    field: FieldView,
    index: nat,
    i: int,
    flag: PathView,
    closed: Direction,
    len: Seq<char>,
    context: ContextView,
)
    requires
        0 <= i < field.attrs.len(),
        field.attrs[i].path.is_ident("serbia"@),
        field.attrs[i].meta == MetaView::List(seq![NestedMetaView::Path(flag)]),
        flag.is_ident(skip_flag(closed)),
        forall|k: int|
            0 <= k < field.attrs.len() && k != i ==> !(#[trigger] field.attrs[k]).path.is_ident(
                "serbia"@,
            ),
        left_by_serde(field.attrs),
        type_len(field.ty) == Ok::<Option<Seq<char>>, ExpansionErrorView>(Some(len)),
        context.serialize,
        context.deserialize,
    ensures
        classify(field, index) == Ok::<Option<BigArrayFieldView>, ExpansionErrorView>(
            Some(
                BigArrayFieldView {
                    index,
                    len,
                    serialize: closed != Direction::Serialize,
                    deserialize: closed != Direction::Deserialize,
                    element_type: element_type(field.ty),
                },
            ),
        ),
        functions_for(context, classify(field, index)->Ok_0) == seq![
            GeneratedFunctionView {
                name: fn_name(opposite(closed), context.type_ident, index),
                direction: opposite(closed),
                index,
                len,
            },
        ],
{
    reveal_strlit("skip");
    reveal_strlit("skip_serializing");
    reveal_strlit("skip_deserializing");
    assert("skip"@.len() != "skip_serializing"@.len());
    assert("skip"@.len() != "skip_deserializing"@.len());
    assert("skip_serializing"@.len() != "skip_deserializing"@.len());
    let arg = NestedMetaView::Path(flag);
    let start: Progress = Ok(Some(SettingsView::initial()));
    lemma_outcomes_single(Source::Directives, field.attrs, i);
    let brought = attr_outcomes(Source::Directives, field.attrs[i]);
    assert(brought =~= seq![Source::Directives.effect(arg)]);
    lemma_scan_one(start, Source::Directives.effect(arg));
    lemma_scan_nothing(scan(start, brought), outcomes(Source::Customizations, field.attrs));
    let big = classify(field, index)->Ok_0->Some_0;
    assert(direction_functions(context, big, Direction::Serialize) + direction_functions(
        context,
        big,
        Direction::Deserialize,
    ) =~= seq![
        GeneratedFunctionView {
            name: fn_name(opposite(closed), context.type_ident, index),
            direction: opposite(closed),
            index,
            len,
        },
    ]);
}

/// What the attributes bring is what those before the one at `i` bring,
/// then what that one brings, then what those after it bring.
pub proof fn lemma_outcomes_at(source: Source, attrs: Seq<AttributeView>, i: int)
    requires
        0 <= i < attrs.len(),
    ensures
        outcomes(source, attrs) == outcomes(source, attrs.take(i)) + attr_outcomes(
            source,
            attrs[i],
        ) + outcomes(source, attrs.skip(i + 1)),
{
    let from = attrs.skip(i);
    let one = from.take(1);
    lemma_outcomes_split(source, attrs, i);
    lemma_outcomes_split(source, from, 1);
    assert(one.drop_last() =~= Seq::empty());
    assert(one.last() == attrs[i]);
    assert(outcomes(source, one.drop_last()) =~= Seq::empty());
    assert(outcomes(source, one) =~= attr_outcomes(source, attrs[i]));
    assert(from.skip(1) =~= attrs.skip(i + 1));
    assert(outcomes(source, attrs) =~= outcomes(source, attrs.take(i)) + attr_outcomes(
        source,
        attrs[i],
    ) + outcomes(source, attrs.skip(i + 1)));
}

/// Where nothing is refused, the reading ends without a refusal.
pub proof fn lemma_scan_accepted(
    from: Progress,
    brought: Seq<Result<EffectView, ExpansionErrorView>>,
)
    requires
        from is Ok,
        forall|k: int| 0 <= k < brought.len() ==> (#[trigger] brought[k]) is Ok,
    ensures
        scan(from, brought) is Ok,
    decreases brought.len(),
{
    if brought.len() > 0 {
        assert forall|k: int| 0 <= k < brought.drop_last().len() implies (
        #[trigger] brought.drop_last()[k]) is Ok by {
            assert(brought.drop_last()[k] == brought[k]);
        }
        lemma_scan_accepted(from, brought.drop_last());
        assert(brought[brought.len() - 1] is Ok);
    }
}

/// `skip` suppresses everything: a field with a `skip` among its directives
/// is left alone, whatever its type is and whatever other directives and
/// serde attributes it has, provided that no directive before the `skip` is
/// refused. The `skip` is the argument at `j` of the attribute at `i`.
pub proof fn law_skip_suppresses(
    field: FieldView,
    index: nat,
    i: int,
    j: int,
    context: ContextView,
    type_params: Seq<Seq<char>>,
)
    requires
        0 <= i < field.attrs.len(),
        field.attrs[i].path.is_ident("serbia"@),
        field.attrs[i].meta matches MetaView::List(args) && 0 <= j < args.len() && (
        args[j] matches NestedMetaView::Path(flag) && flag.is_ident("skip"@)) && (forall|m: int|
            0 <= m < j ==> Source::Directives.effect(#[trigger] args[m]) is Ok),
        forall|m: int|
            0 <= m < outcomes(Source::Directives, field.attrs.take(i)).len() ==> (
            #[trigger] outcomes(Source::Directives, field.attrs.take(i))[m]) is Ok,
    ensures
        classify(field, index) == Ok::<Option<BigArrayFieldView>, ExpansionErrorView>(None),
        functions_for(context, classify(field, index)->Ok_0).len() == 0,
        hooks_for(context, type_params, classify(field, index)->Ok_0).len() == 0,
{
    let source = Source::Directives;
    let args = field.attrs[i].meta->List_0;
    let earlier = outcomes(source, field.attrs.take(i));
    let here = attr_outcomes(source, field.attrs[i]);
    let later = outcomes(source, field.attrs.skip(i + 1));
    let start: Progress = Ok(Some(SettingsView::initial()));
    lemma_outcomes_at(source, field.attrs, i);
    let before = earlier + here.take(j);
    let skip = seq![here[j]];
    let after = here.skip(j + 1) + later;
    assert(here[j] == Ok::<EffectView, ExpansionErrorView>(EffectView::Skip));
    assert(outcomes(source, field.attrs) =~= (before + skip) + after);
    assert forall|m: int| 0 <= m < before.len() implies (#[trigger] before[m]) is Ok by {
        if m >= earlier.len() {
            assert(before[m] == source.effect(args[m - earlier.len()]));
        }
    }
    lemma_scan_accepted(start, before);
    lemma_scan_concat(start, before + skip, after);
    lemma_scan_concat(start, before, skip);
    lemma_scan_one(scan(start, before), here[j]);
    lemma_scan_final(Ok(None), after);
    lemma_scan_final(Ok(None), outcomes(Source::Customizations, field.attrs));
}

/// Whether an outcome closes a direction.
pub open spec fn closes(
    outcome: Result<EffectView, ExpansionErrorView>,
    direction: Direction,
) -> bool {
    match outcome {
        Ok(EffectView::ClearBoth) => true,
        Ok(EffectView::ClearSerialize) => direction == Direction::Serialize,
        Ok(EffectView::ClearDeserialize) => direction == Direction::Deserialize,
        _ => false,
    }
}

/// Whether a direction is still open.
pub open spec fn open_for(settings: SettingsView, direction: Direction) -> bool {
    match direction {
        Direction::Serialize => settings.serialize,
        Direction::Deserialize => settings.deserialize,
    }
}

/// A direction that is closed, or that one of the outcomes closes, is
/// closed in the end.
pub proof fn lemma_scan_closed(
    from: SettingsView,
    brought: Seq<Result<EffectView, ExpansionErrorView>>,
    direction: Direction,
)
    requires
        scan(Ok(Some(from)), brought) matches Ok(Some(_)),
        !open_for(from, direction) || exists|k: int|
            0 <= k < brought.len() && closes(#[trigger] brought[k], direction),
    ensures
        !open_for(scan(Ok(Some(from)), brought)->Ok_0->Some_0, direction),
    decreases brought.len(),
{
    if brought.len() > 0 {
        let shorter = brought.drop_last();
        let last = brought.last();
        assert(scan(Ok(Some(from)), shorter) matches Ok(Some(_)));
        if closes(last, direction) {
        } else {
            if open_for(from, direction) {
                let k = choose|k: int|
                    0 <= k < brought.len() && closes(#[trigger] brought[k], direction);
                assert(closes(shorter[k], direction));
            }
            lemma_scan_closed(from, shorter, direction);
        }
    }
}

/// Whether a serde argument of this name settles a direction by itself:
/// `serialize_with` and `skip_serializing` settle serializing,
/// `deserialize_with` and `skip_deserializing` settle deserializing, `skip`
/// and `with` settle both.
pub open spec fn settles(name: Seq<char>, direction: Direction) -> bool {
    ||| name == "skip"@
    ||| name == "with"@
    ||| match direction {
        Direction::Serialize => name == "serialize_with"@ || name == "skip_serializing"@,
        Direction::Deserialize => name == "deserialize_with"@ || name == "skip_deserializing"@,
    }
}

/// A serde argument that settles a direction closes that direction.
pub proof fn lemma_settles_closes(meta: NestedMetaView, name: PathView, direction: Direction)
    requires
        meta.path() == Some(name),
        name.ident() is Some,
        settles(name.ident()->Some_0, direction),
    ensures
        closes(Source::Customizations.effect(meta), direction),
{
    reveal_strlit("skip");
    reveal_strlit("with");
    reveal_strlit("serialize_with");
    reveal_strlit("skip_serializing");
    reveal_strlit("deserialize_with");
    reveal_strlit("skip_deserializing");
    let text = name.ident()->Some_0;
    if text == "skip"@ || text == "with"@ {
        assert(text.len() == 4);
    } else if text == "deserialize_with"@ {
        assert(text[0] == 'd');
    } else if text == "skip_deserializing"@ {
        assert(text.len() == 18);
    }
}

/// No function is generated where serde is already told what to do: a field
/// with a serde argument that settles a direction gets no function and no
/// attribute for that direction, and its own attribute stays on it. So a
/// field that has `serialize_with` keeps it and gets no serialize function,
/// and a field never has a generated attribute beside an attribute of its
/// own that settles the same direction. The argument is the one at `j` of
/// the attribute at `i`.
pub proof fn law_own_customization_wins(
    field: FieldView,
    index: nat,
    i: int,
    j: int,
    direction: Direction,
    context: ContextView,
    type_params: Seq<Seq<char>>,
)
    requires
        0 <= i < field.attrs.len(),
        field.attrs[i].path.is_ident("serde"@),
        field.attrs[i].meta matches MetaView::List(args) && 0 <= j < args.len() && (
        args[j].path() matches Some(name) && name.ident() matches Some(text) && settles(
            text,
            direction,
        )),
    ensures
        classify(field, index) matches Ok(Some(big)) ==> {
            &&& !wanted(context, big, direction)
            &&& direction_functions(context, big, direction).len() == 0
            &&& direction_hooks(context, type_params, big, direction).len() == 0
        },
        strip(field.attrs).contains(field.attrs[i]),
{
    reveal_strlit("serbia");
    reveal_strlit("serde");
    let source = Source::Customizations;
    let args = field.attrs[i].meta->List_0;
    let here = attr_outcomes(source, field.attrs[i]);
    lemma_settles_closes(args[j], args[j].path()->Some_0, direction);
    assert(closes(here[j], direction));
    if classify(field, index) matches Ok(Some(big)) {
        let start: Progress = Ok(Some(SettingsView::initial()));
        let directives = scan(start, outcomes(Source::Directives, field.attrs));
        let brought = outcomes(source, field.attrs);
        if !(directives matches Ok(Some(_))) {
            lemma_scan_final(directives, brought);
        }
        lemma_outcomes_at(source, field.attrs, i);
        let pos = outcomes(source, field.attrs.take(i)).len() + j;
        assert(brought[pos] == here[j]);
        lemma_scan_closed(directives->Ok_0->Some_0, brought, direction);
    }
    assert("serde"@[3] != "serbia"@[3]);
    assert(survives()(field.attrs[i]));
    field.attrs.lemma_filter_contains(survives(), i);
}

/// Stripping takes nothing but this crate's own attributes: every other
/// attribute of the field is among those that stay, and every attribute
/// that stays is one of the field's and is not this crate's own.
pub proof fn law_strip_takes_directives_only(attrs: Seq<AttributeView>)
    ensures
        forall|i: int|
            0 <= i < attrs.len() && !is_directive(#[trigger] attrs[i]) ==> strip(attrs).contains(
                attrs[i],
            ),
        forall|k: int|
            0 <= k < strip(attrs).len() ==> !is_directive(#[trigger] strip(attrs)[k])
                && attrs.contains(strip(attrs)[k]),
        strip(attrs).len() <= attrs.len(),
{
    assert forall|i: int| 0 <= i < attrs.len() && !is_directive(#[trigger] attrs[i]) implies strip(
        attrs,
    ).contains(attrs[i]) by {
        assert(survives()(attrs[i]));
        attrs.lemma_filter_contains(survives(), i);
    }
    assert forall|k: int| 0 <= k < strip(attrs).len() implies !is_directive(
        #[trigger] strip(attrs)[k],
    ) && attrs.contains(strip(attrs)[k]) by {
        attrs.lemma_filter_pred(survives(), k);
        assert(strip(attrs).contains(strip(attrs)[k]));
        attrs.lemma_filter_contains_rev(survives(), strip(attrs)[k]);
    }
    attrs.lemma_filter_len(survives());
}

/// A definition is refused exactly where one of its fields is, and the
/// first such field gives the reason.
pub proof fn law_first_refusal_decides(fields: Seq<FieldView>)
    ensures
        plan(fields) is Ok <==> forall|i: int|
            0 <= i < fields.len() ==> classify(#[trigger] fields[i], i as nat) is Ok,
        plan(fields) matches Err(error) ==> exists|i: int|
            {
                &&& 0 <= i < fields.len()
                &&& classify(#[trigger] fields[i], i as nat) == Err::<
                    Option<BigArrayFieldView>,
                    ExpansionErrorView,
                >(error)
                &&& forall|j: int| 0 <= j < i ==> classify(#[trigger] fields[j], j as nat) is Ok
            },
    decreases fields.len(),
{
    if fields.len() > 0 {
        let shorter = fields.drop_last();
        let last = fields.len() - 1;
        law_first_refusal_decides(shorter);
        assert forall|i: int| 0 <= i < shorter.len() implies shorter[i] == fields[i] by {}
        match plan(shorter) {
            Ok(_) => {
                assert forall|j: int| 0 <= j < last implies classify(
                    #[trigger] fields[j],
                    j as nat,
                ) is Ok by {
                    assert(classify(shorter[j], j as nat) is Ok);
                }
                if classify(fields[last], last as nat) is Ok {
                    assert forall|i: int| 0 <= i < fields.len() implies classify(
                        #[trigger] fields[i],
                        i as nat,
                    ) is Ok by {
                        if i < last {
                            assert(classify(shorter[i], i as nat) is Ok);
                        }
                    }
                } else {
                    assert(classify(fields[last], last as nat) is Err);
                }
            },
            Err(error) => {
                let i = choose|i: int|
                    {
                        &&& 0 <= i < shorter.len()
                        &&& classify(#[trigger] shorter[i], i as nat) == Err::<
                            Option<BigArrayFieldView>,
                            ExpansionErrorView,
                        >(error)
                        &&& forall|j: int|
                            0 <= j < i ==> classify(#[trigger] shorter[j], j as nat) is Ok
                    };
                assert(classify(fields[i], i as nat) == Err::<
                    Option<BigArrayFieldView>,
                    ExpansionErrorView,
                >(error));
                assert forall|j: int| 0 <= j < i implies classify(
                    #[trigger] fields[j],
                    j as nat,
                ) is Ok by {
                    assert(classify(shorter[j], j as nat) is Ok);
                }
            },
        }
    }
}

/// The index of a field is its position among all fields of the
/// definition. It is given once: a big array field carries the position at
/// which it stands, and its classification is that of the field alone, so
/// the fields around it, skipped or not, have no part in it.
pub proof fn law_index_is_position(fields: Seq<FieldView>, i: int)
    requires
        plan(fields) is Ok,
        0 <= i < fields.len(),
    ensures
        plan(fields)->Ok_0.len() == fields.len(),
        classify(fields[i], i as nat) == Ok::<Option<BigArrayFieldView>, ExpansionErrorView>(
            plan(fields)->Ok_0[i],
        ),
        plan(fields)->Ok_0[i] matches Some(big) ==> big.index == i,
{
    lemma_plan_positions(fields);
}

/// Two definitions that have the same field at the same position classify
/// it alike, whatever their other fields are.
pub proof fn law_index_is_stable(first: Seq<FieldView>, second: Seq<FieldView>, i: int)
    requires
        plan(first) is Ok,
        plan(second) is Ok,
        0 <= i < first.len(),
        0 <= i < second.len(),
        first[i] == second[i],
    ensures
        plan(first)->Ok_0[i] == plan(second)->Ok_0[i],
{
    lemma_plan_positions(first);
    lemma_plan_positions(second);
}

/// The variants of an enum after the rewriting.
pub open spec fn rewrite_variants(
    variants: Seq<VariantView>,
    context: ContextView,
    type_params: Seq<Seq<char>>,
    plan: Seq<Option<BigArrayFieldView>>,
) -> Seq<VariantView> {
    Seq::new(
        variants.len(),
        |v: int|
            VariantView {
                fields: rewrite_fields(
                    variants[v].fields,
                    context,
                    type_params,
                    plan,
                    offset(variants, v),
                ),
            },
    )
}

/// Rewriting the variants of an enum rewrites its fields in their one
/// sequence, each by the entry of the plan at its position.
pub proof fn lemma_flatten_rewritten(
    variants: Seq<VariantView>,
    context: ContextView,
    type_params: Seq<Seq<char>>,
    plan: Seq<Option<BigArrayFieldView>>,
)
    ensures
        flatten(rewrite_variants(variants, context, type_params, plan)) == rewrite_fields(
            flatten(variants),
            context,
            type_params,
            plan,
            0,
        ),
    decreases variants.len(),
{
    let rewritten_variants = rewrite_variants(variants, context, type_params, plan);
    if variants.len() == 0 {
        assert(flatten(rewritten_variants) =~= rewrite_fields(
            flatten(variants),
            context,
            type_params,
            plan,
            0,
        ));
    } else {
        let shorter = variants.drop_last();
        let last = variants.len() - 1;
        lemma_flatten_rewritten(shorter, context, type_params, plan);
        assert forall|v: int| 0 <= v < shorter.len() implies offset(shorter, v) == offset(
            variants,
            v,
        ) by {
            assert(shorter.take(v) =~= variants.take(v));
        }
        assert(rewritten_variants.drop_last() =~= rewrite_variants(
            shorter,
            context,
            type_params,
            plan,
        ));
        assert(variants.take(last) =~= shorter);
        assert(offset(variants, last) == flatten(shorter).len());
        assert(flatten(rewritten_variants) =~= rewrite_fields(
            flatten(variants),
            context,
            type_params,
            plan,
            0,
        ));
    }
}

/// The rewriting goes field by field: the field at position `i` loses this
/// crate's own attributes and gets the attributes of the entry of the plan
/// at `i`, in a struct and in an enum alike; no field is added, dropped or
/// moved.
pub proof fn law_fields_rewritten_in_place(
    item: ItemView,
    context: ContextView,
    plan: Seq<Option<BigArrayFieldView>>,
)
    ensures
        rewrite_item(item, context, plan).fields() == rewrite_fields(
            item.fields(),
            context,
            item.type_params(),
            plan,
            0,
        ),
        rewrite_item(item, context, plan).fields().len() == item.fields().len(),
        rewrite_item(item, context, plan).ident() == item.ident(),
        rewrite_item(item, context, plan).attrs() == item.attrs(),
        rewrite_item(item, context, plan).type_params() == item.type_params(),
{
    match item {
        ItemView::Struct(s) => {},
        ItemView::Enum(e) => {
            lemma_flatten_rewritten(e.variants, context, e.type_params, plan);
            assert(rewrite_item(item, context, plan)->Enum_0.variants =~= rewrite_variants(
                e.variants,
                context,
                e.type_params,
                plan,
            ));
        },
    }
}

/// The functions of one field: at most two, all for that field and named
/// after it; where there are two, the serialize function comes first.
pub proof fn lemma_functions_of_field(context: ContextView, big: BigArrayFieldView)
    ensures
        ({
            let functions = functions_for(context, Some(big));
            &&& functions.len() <= 2
            &&& forall|a: int|
                0 <= a < functions.len() ==> (#[trigger] functions[a]).index == big.index
                    && functions[a].name == fn_name(
                    functions[a].direction,
                    context.type_ident,
                    big.index,
                )
            &&& functions.len() == 2 ==> functions[0].direction != functions[1].direction
        }),
{
    let first = direction_functions(context, big, Direction::Serialize);
    let second = direction_functions(context, big, Direction::Deserialize);
    let functions = functions_for(context, Some(big));
    assert(functions == first + second);
    assert forall|a: int| 0 <= a < functions.len() implies (#[trigger] functions[a]).index
        == big.index && functions[a].name == fn_name(
        functions[a].direction,
        context.type_ident,
        big.index,
    ) by {
        if a < first.len() {
            assert(functions[a] == first[a]);
        } else {
            assert(functions[a] == second[a - first.len()]);
        }
    }
    if functions.len() == 2 {
        assert(functions[0] == first[0]);
        assert(functions[1] == second[0]);
    }
}

/// Every function of the first `k` fields of a plan is for one of these
/// fields, and is named after its direction and that field's index.
pub proof fn lemma_function_of_plan(
    context: ContextView,
    fields: Seq<FieldView>,
    k: int,
    a: int,
)
    requires
        plan(fields) is Ok,
        0 <= k <= fields.len(),
        0 <= a < all_functions(context, plan(fields)->Ok_0.take(k)).len(),
    ensures
        ({
            let function = all_functions(context, plan(fields)->Ok_0.take(k))[a];
            &&& function.index < k
            &&& function.name == fn_name(
                function.direction,
                context.type_ident,
                function.index,
            )
        }),
    decreases k,
{
    let whole = plan(fields)->Ok_0;
    lemma_plan_positions(fields);
    let upto = whole.take(k);
    if k == 0 {
        assert(upto.len() == 0);
    } else {
        assert(upto.drop_last() =~= whole.take(k - 1));
        assert(upto.last() == whole[k - 1]);
        let earlier = all_functions(context, whole.take(k - 1));
        let here = functions_for(context, whole[k - 1]);
        assert(all_functions(context, upto) == earlier + here);
        if a < earlier.len() {
            lemma_function_of_plan(context, fields, k - 1, a);
        } else {
            assert(classify(fields[k - 1], (k - 1) as nat) == Ok::<
                Option<BigArrayFieldView>,
                ExpansionErrorView,
            >(whole[k - 1]));
            let big = whole[k - 1]->Some_0;
            lemma_functions_of_field(context, big);
            assert(all_functions(context, upto)[a] == here[a - earlier.len()]);
        }
    }
}

/// The functions of a plan come in the order of the fields, and of one
/// field the serialize function comes first: of two functions, the later
/// is for a later field, or for the same field and the other direction.
pub proof fn lemma_functions_in_order(
    context: ContextView,
    fields: Seq<FieldView>,
    k: int,
    a: int,
    b: int,
)
    requires
        plan(fields) is Ok,
        0 <= k <= fields.len(),
        0 <= a < b < all_functions(context, plan(fields)->Ok_0.take(k)).len(),
    ensures
        ({
            let functions = all_functions(context, plan(fields)->Ok_0.take(k));
            functions[a].index < functions[b].index || (functions[a].index
                == functions[b].index && functions[a].direction != functions[b].direction)
        }),
    decreases k,
{
    let whole = plan(fields)->Ok_0;
    lemma_plan_positions(fields);
    let upto = whole.take(k);
    if k == 0 {
        assert(upto.len() == 0);
    } else {
        assert(upto.drop_last() =~= whole.take(k - 1));
        assert(upto.last() == whole[k - 1]);
        let earlier = all_functions(context, whole.take(k - 1));
        let here = functions_for(context, whole[k - 1]);
        let functions = all_functions(context, upto);
        assert(functions == earlier + here);
        if b < earlier.len() {
            lemma_functions_in_order(context, fields, k - 1, a, b);
        } else {
            assert(classify(fields[k - 1], (k - 1) as nat) == Ok::<
                Option<BigArrayFieldView>,
                ExpansionErrorView,
            >(whole[k - 1]));
            let big = whole[k - 1]->Some_0;
            lemma_functions_of_field(context, big);
            assert(functions[b] == here[b - earlier.len()]);
            if a < earlier.len() {
                lemma_function_of_plan(context, fields, k - 1, a);
                assert(functions[a] == earlier[a]);
            } else {
                assert(functions[a] == here[a - earlier.len()]);
            }
        }
    }
}

/// No two functions of an expansion have the same name: there is at most
/// one for each field and direction, and its name tells both.
pub proof fn law_function_names_unique(
    context: ContextView,
    fields: Seq<FieldView>,
    a: int,
    b: int,
)
    requires
        plan(fields) is Ok,
        0 <= a < b < all_functions(context, plan(fields)->Ok_0).len(),
    ensures
        all_functions(context, plan(fields)->Ok_0)[a].name != all_functions(
            context,
            plan(fields)->Ok_0,
        )[b].name,
{
    let whole = plan(fields)->Ok_0;
    lemma_plan_positions(fields);
    assert(whole.take(fields.len() as int) =~= whole);
    lemma_functions_in_order(context, fields, fields.len() as int, a, b);
    lemma_function_of_plan(context, fields, fields.len() as int, a);
    lemma_function_of_plan(context, fields, fields.len() as int, b);
    let functions = all_functions(context, whole);
    if functions[a].name == functions[b].name {
        lemma_fn_names_differ(
            context.type_ident,
            functions[a].direction,
            functions[a].index,
            functions[b].direction,
            functions[b].index,
        );
    }
}

/// A function is generated exactly where an attribute points to it: for a
/// direction that is wanted, the field gets the attribute that names the
/// function, and that function is generated; for a direction that is not,
/// the field gets no attribute and no function is generated.
pub proof fn law_hooks_match_functions(
    context: ContextView,
    type_params: Seq<Seq<char>>,
    big: BigArrayFieldView,
    direction: Direction,
)
    ensures
        wanted(context, big, direction) ==> {
            &&& direction_functions(context, big, direction).len() == 1
            &&& direction_functions(context, big, direction)[0].direction == direction
            &&& direction_functions(context, big, direction)[0].index == big.index
            &&& direction_functions(context, big, direction)[0].len == big.len
            &&& direction_hooks(context, type_params, big, direction).len() >= 1
            &&& direction_hooks(context, type_params, big, direction)[0] == with_hook(
                direction,
                direction_functions(context, big, direction)[0].name,
            )
        },
        !wanted(context, big, direction) ==> {
            &&& direction_functions(context, big, direction).len() == 0
            &&& direction_hooks(context, type_params, big, direction).len() == 0
        },
{
}

/// Whether `function` is one of the functions of the field at position `i`
/// of a plan.
pub open spec fn is_function_of(
    context: ContextView,
    plan: Seq<Option<BigArrayFieldView>>,
    i: int,
    function: GeneratedFunctionView,
) -> bool {
    0 <= i < plan.len() && functions_for(context, plan[i]).contains(function)
}

/// Whether `function` is one of the functions of a field of a plan.
pub open spec fn has_field(
    context: ContextView,
    plan: Seq<Option<BigArrayFieldView>>,
    function: GeneratedFunctionView,
) -> bool {
    exists|i: int| #[trigger] is_function_of(context, plan, i, function)
}

/// The functions of an expansion are those of its fields and no others:
/// every function of a field is among them, and each of them is a function
/// of one of the fields.
pub proof fn law_functions_are_those_of_the_fields(
    context: ContextView,
    plan: Seq<Option<BigArrayFieldView>>,
)
    ensures
        forall|i: int, a: int|
            0 <= i < plan.len() && 0 <= a < functions_for(context, plan[i]).len()
                ==> all_functions(context, plan).contains(
                #[trigger] functions_for(context, plan[i])[a],
            ),
        forall|b: int|
            0 <= b < all_functions(context, plan).len() ==> has_field(
                context,
                plan,
                #[trigger] all_functions(context, plan)[b],
            ),
    decreases plan.len(),
{
    let all = all_functions(context, plan);
    if plan.len() > 0 {
        let shorter = plan.drop_last();
        let last = plan.len() - 1;
        let earlier = all_functions(context, shorter);
        let here = functions_for(context, plan[last]);
        law_functions_are_those_of_the_fields(context, shorter);
        assert(all == earlier + here);
        assert forall|i: int, a: int|
            0 <= i < plan.len() && 0 <= a < functions_for(context, plan[i]).len() implies all.contains(
            #[trigger] functions_for(context, plan[i])[a],
        ) by {
            let function = functions_for(context, plan[i])[a];
            if i < last {
                assert(shorter[i] == plan[i]);
                assert(earlier.contains(functions_for(context, shorter[i])[a]));
                let at = choose|at: int| 0 <= at < earlier.len() && earlier[at] == function;
                assert(all[at] == function);
            } else {
                assert(all[earlier.len() + a] == function);
            }
        }
        assert forall|b: int| 0 <= b < all.len() implies has_field(
            context,
            plan,
            #[trigger] all[b],
        ) by {
            if b < earlier.len() {
                assert(all[b] == earlier[b]);
                assert(has_field(context, shorter, earlier[b]));
                let i = choose|i: int| #[trigger] is_function_of(context, shorter, i, earlier[b]);
                assert(shorter[i] == plan[i]);
                assert(is_function_of(context, plan, i, all[b]));
            } else {
                assert(here[b - earlier.len()] == all[b]);
                assert(is_function_of(context, plan, last, all[b]));
            }
        }
    }
}

} // verus!
