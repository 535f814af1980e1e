//! Classifying one field: whether it needs generated functions, for which
//! directions, and with which length.

use vstd::prelude::*;
use crate::error::{ExpansionError, ExpansionErrorView};
use crate::names::{check_constant_name, is_constant_name};
use crate::syntax::{
    option_view, result_view, views, ArrayLen, ArrayLenView, Attribute, AttributeView,
    ElementType, ElementTypeView, Field, FieldView, Lit, LitView, Meta, MetaView, NestedMeta,
    NestedMetaView, Type, TypeView,
};
use crate::text::{decimal_value, parse_decimal, str_eq};

verus! {

/// Array lengths up to this one serde handles by itself.
pub const THRESHOLD: usize = 32;

/// An argument of a `serbia` attribute.
#[derive(Clone, Debug, PartialEq, Eq)]
pub enum Arg {
    Flag(String),
    KeyValueArg(KeyValueArg),
}

/// An argument of the form `key = value`.
#[derive(Clone, Debug, PartialEq, Eq)]
pub struct KeyValueArg {
    pub key: String,
    pub value: Lit,
}

pub enum ArgView {
    Flag(Seq<char>),
    KeyValueArg(KeyValueArgView),
}

pub struct KeyValueArgView {
    pub key: Seq<char>,
    pub value: LitView,
}

impl View for KeyValueArg {
    type V = KeyValueArgView;

    open spec fn view(&self) -> KeyValueArgView {
        KeyValueArgView { key: self.key@, value: self.value@ }
    }
}

impl View for Arg {
    type V = ArgView;

    open spec fn view(&self) -> ArgView {
        match self {
            Arg::Flag(flag) => ArgView::Flag(flag@),
            Arg::KeyValueArg(key_value) => ArgView::KeyValueArg(key_value@),
        }
    }
}

/// The argument that `meta` is: a flag where it is a bare identifier, a key
/// and a value where it is `key = value`.
pub open spec fn arg_of(meta: NestedMetaView) -> Result<ArgView, ExpansionErrorView> {
    match meta {
        NestedMetaView::NameValue(path, value) => match path.ident() {
            Some(key) => Ok(ArgView::KeyValueArg(KeyValueArgView { key, value })),
            None => Err(ExpansionErrorView::ExpectedIdent),
        },
        NestedMetaView::Path(path) => match path.ident() {
            Some(flag) => Ok(ArgView::Flag(flag)),
            None => Err(ExpansionErrorView::ExpectedIdent),
        },
        _ => Err(ExpansionErrorView::UnsupportedArgument),
    }
}

/// Reads an argument of a `serbia` attribute as a flag or as a key with a
/// value.
pub fn parse_arg(meta: &NestedMeta) -> (arg: Result<Arg, ExpansionError>)
    ensures
        result_view(arg) == arg_of(meta@),
{
    match meta {
        NestedMeta::NameValue(path, value) => match path.get_ident() {
            Some(key) => Ok(Arg::KeyValueArg(KeyValueArg { key: key.clone(), value: value.clone() })),
            None => Err(ExpansionError::ExpectedIdent),
        },
        NestedMeta::Path(path) => match path.get_ident() {
            Some(flag) => Ok(Arg::Flag(flag.clone())),
            None => Err(ExpansionError::ExpectedIdent),
        },
        _ => Err(ExpansionError::UnsupportedArgument),
    }
}

/// What one attribute argument does to the classification of its field.
#[derive(Clone, Debug, PartialEq, Eq)]
pub enum Effect {
    /// The field is left alone altogether.
    Skip,
    /// No serialize function.
    ClearSerialize,
    /// No deserialize function.
    ClearDeserialize,
    /// Neither function.
    ClearBoth,
    /// The length is the one given, whatever the type of the field.
    SetLen(String),
    Nothing,
}

pub enum EffectView {
    Skip,
    ClearSerialize,
    ClearDeserialize,
    ClearBoth,
    SetLen(Seq<char>),
    Nothing,
}

impl View for Effect {
    type V = EffectView;

    open spec fn view(&self) -> EffectView {
        match self {
            Effect::Skip => EffectView::Skip,
            Effect::ClearSerialize => EffectView::ClearSerialize,
            Effect::ClearDeserialize => EffectView::ClearDeserialize,
            Effect::ClearBoth => EffectView::ClearBoth,
            Effect::SetLen(len) => EffectView::SetLen(len@),
            Effect::Nothing => EffectView::Nothing,
        }
    }
}

/// What an argument of a `serbia` attribute asks for.
pub open spec fn directive(arg: ArgView) -> Result<EffectView, ExpansionErrorView> {
    match arg {
        ArgView::Flag(flag) => if flag == "skip"@ {
            Ok(EffectView::Skip)
        } else if flag == "skip_serializing"@ {
            Ok(EffectView::ClearSerialize)
        } else if flag == "skip_deserializing"@ {
            Ok(EffectView::ClearDeserialize)
        } else {
            Err(ExpansionErrorView::UnknownFlag(flag))
        },
        ArgView::KeyValueArg(key_value) => if key_value.key == "bufsize"@ {
            match key_value.value {
                LitView::Str(name) => if is_constant_name(name) {
                    Ok(EffectView::SetLen(name))
                } else {
                    Err(ExpansionErrorView::InvalidConstantName(name))
                },
                LitView::Other(tokens) => Ok(EffectView::SetLen(tokens)),
            }
        } else {
            Err(ExpansionErrorView::UnknownOption(key_value.key))
        },
    }
}

/// Reads what an argument of a `serbia` attribute asks for.
pub fn read_directive(arg: Arg) -> (effect: Result<Effect, ExpansionError>)
    ensures
        result_view(effect) == directive(arg@),
{
    match arg {
        Arg::Flag(flag) => if str_eq(flag.as_str(), "skip") {
            Ok(Effect::Skip)
        } else if str_eq(flag.as_str(), "skip_serializing") {
            Ok(Effect::ClearSerialize)
        } else if str_eq(flag.as_str(), "skip_deserializing") {
            Ok(Effect::ClearDeserialize)
        } else {
            Err(ExpansionError::UnknownFlag(flag))
        },
        Arg::KeyValueArg(key_value) => if str_eq(key_value.key.as_str(), "bufsize") {
            match key_value.value {
                Lit::Str(name) => if check_constant_name(name.as_str()) {
                    Ok(Effect::SetLen(name))
                } else {
                    Err(ExpansionError::InvalidConstantName(name))
                },
                Lit::Other(tokens) => Ok(Effect::SetLen(tokens)),
            }
        } else {
            Err(ExpansionError::UnknownOption(key_value.key))
        },
    }
}

/// What an argument of a `serde` attribute means for the functions of this
/// crate: where the field has its own way for a direction, none is generated.
pub open spec fn customization(meta: NestedMetaView) -> Result<EffectView, ExpansionErrorView> {
    match meta.path() {
        None => Ok(EffectView::Nothing),
        Some(path) => match path.ident() {
            None => Err(ExpansionErrorView::ExpectedIdent),
            Some(name) => if name == "serialize_with"@ || name == "skip_serializing"@ {
                Ok(EffectView::ClearSerialize)
            } else if name == "deserialize_with"@ || name == "skip_deserializing"@ {
                Ok(EffectView::ClearDeserialize)
            } else if name == "skip"@ || name == "with"@ {
                Ok(EffectView::ClearBoth)
            } else {
                Ok(EffectView::Nothing)
            },
        },
    }
}

/// Reads what an argument of a `serde` attribute means for the field.
pub fn read_customization(meta: &NestedMeta) -> (effect: Result<Effect, ExpansionError>)
    ensures
        result_view(effect) == customization(meta@),
{
    match meta.path() {
        None => Ok(Effect::Nothing),
        Some(path) => match path.get_ident() {
            None => Err(ExpansionError::ExpectedIdent),
            Some(name) => {
                let name = name.as_str();
                if str_eq(name, "serialize_with") || str_eq(name, "skip_serializing") {
                    Ok(Effect::ClearSerialize)
                } else if str_eq(name, "deserialize_with") || str_eq(name, "skip_deserializing") {
                    Ok(Effect::ClearDeserialize)
                } else if str_eq(name, "skip") || str_eq(name, "with") {
                    Ok(Effect::ClearBoth)
                } else {
                    Ok(Effect::Nothing)
                }
            },
        },
    }
}

/// Which attributes are read: this crate's own, or those of serde.
#[derive(Clone, Copy, Debug, PartialEq, Eq, Structural)]
pub enum Source {
    Directives,
    Customizations,
}

impl Source {
    /// The name of the attributes of this source.
    pub open spec fn attribute(self) -> Seq<char> {
        match self {
            Source::Directives => "serbia"@,
            Source::Customizations => "serde"@,
        }
    }

    /// What an argument of an attribute of this source does.
    pub open spec fn effect(self, meta: NestedMetaView) -> Result<EffectView, ExpansionErrorView> {
        match self {
            Source::Directives => match arg_of(meta) {
                Ok(arg) => directive(arg),
                Err(error) => Err(error),
            },
            Source::Customizations => customization(meta),
        }
    }

    /// The name of the attributes of this source.
    pub fn name(self) -> (name: &'static str)
        ensures
            name@ == self.attribute(),
    {
        match self {
            Source::Directives => "serbia",
            Source::Customizations => "serde",
        }
    }

    /// Reads what an argument of an attribute of this source does.
    pub fn read(self, meta: &NestedMeta) -> (effect: Result<Effect, ExpansionError>)
        ensures
            result_view(effect) == self.effect(meta@),
    {
        match self {
            Source::Directives => match parse_arg(meta) {
                Ok(arg) => read_directive(arg),
                Err(error) => Err(error),
            },
            Source::Customizations => read_customization(meta),
        }
    }
}

/// What is known of a field while its attributes are read.
#[derive(Clone, Debug, PartialEq, Eq)]
pub struct Settings {
    /// The length that a `bufsize` gave, if any did.
    pub len: Option<String>,
    pub serialize: bool,
    pub deserialize: bool,
}

pub struct SettingsView {
    pub len: Option<Seq<char>>,
    pub serialize: bool,
    pub deserialize: bool,
}

impl View for Settings {
    type V = SettingsView;

    open spec fn view(&self) -> SettingsView {
        SettingsView {
            len: option_view(self.len),
            serialize: self.serialize,
            deserialize: self.deserialize,
        }
    }
}

/// How far the reading of a field's attributes has come: `Ok(Some(..))` while
/// it goes on, `Ok(None)` once a `skip` was met, `Err(..)` once an argument
/// was refused.
pub type Progress = Result<Option<SettingsView>, ExpansionErrorView>;

impl SettingsView {
    /// Before anything is read: no length, both directions.
    pub open spec fn initial() -> SettingsView {
        SettingsView { len: None, serialize: true, deserialize: true }
    }

    /// The settings after `effect`; `None` where the field is skipped.
    pub open spec fn apply(self, effect: EffectView) -> Option<SettingsView> {
        match effect {
            EffectView::Skip => None,
            EffectView::ClearSerialize => Some(SettingsView { serialize: false, ..self }),
            EffectView::ClearDeserialize => Some(SettingsView { deserialize: false, ..self }),
            EffectView::ClearBoth => Some(
                SettingsView { serialize: false, deserialize: false, ..self },
            ),
            EffectView::SetLen(len) => Some(SettingsView { len: Some(len), ..self }),
            EffectView::Nothing => Some(self),
        }
    }
}

impl Settings {
    /// The settings before anything is read.
    pub fn new() -> (settings: Settings)
        ensures
            settings@ == SettingsView::initial(),
    {
        Settings { len: None, serialize: true, deserialize: true }
    }

    /// The settings after `effect`; `None` where the field is skipped.
    pub fn apply(self, effect: Effect) -> (next: Option<Settings>)
        ensures
            option_view(next) == self@.apply(effect@),
    {
        match effect {
            Effect::Skip => None,
            Effect::ClearSerialize => Some(
                Settings { len: self.len, serialize: false, deserialize: self.deserialize },
            ),
            Effect::ClearDeserialize => Some(
                Settings { len: self.len, serialize: self.serialize, deserialize: false },
            ),
            Effect::ClearBoth => Some(
                Settings { len: self.len, serialize: false, deserialize: false },
            ),
            Effect::SetLen(len) => Some(
                Settings { len: Some(len), serialize: self.serialize, deserialize: self.deserialize },
            ),
            Effect::Nothing => Some(self),
        }
    }
}

/// One step of the reading: the first `skip` and the first refusal are final.
pub open spec fn step(
    progress: Progress,
    outcome: Result<EffectView, ExpansionErrorView>,
) -> Progress {
    match progress {
        Ok(Some(settings)) => match outcome {
            Ok(effect) => Ok(settings.apply(effect)),
            Err(error) => Err(error),
        },
        _ => progress,
    }
}

/// The reading of `outcomes`, in order, from `progress` on.
pub open spec fn scan(
    progress: Progress,
    outcomes: Seq<Result<EffectView, ExpansionErrorView>>,
) -> Progress
    decreases outcomes.len(),
{
    if outcomes.len() == 0 {
        progress
    } else {
        step(scan(progress, outcomes.drop_last()), outcomes.last())
    }
}

/// What the arguments of one attribute bring, in order. An attribute of
/// another name brings nothing, nor does one without a list of arguments;
/// one whose arguments are not in meta form is refused.
pub open spec fn attr_outcomes(source: Source, attr: AttributeView) -> Seq<
    Result<EffectView, ExpansionErrorView>,
> {
    if attr.path.is_ident(source.attribute()) {
        match attr.meta {
            MetaView::List(nested) => nested.map_values(|meta: NestedMetaView| source.effect(meta)),
            MetaView::Tokens(_) => seq![Err(ExpansionErrorView::MalformedAttribute)],
            _ => Seq::empty(),
        }
    } else {
        Seq::empty()
    }
}

/// What the attributes of a field bring from one source, in order.
pub open spec fn outcomes(source: Source, attrs: Seq<AttributeView>) -> Seq<
    Result<EffectView, ExpansionErrorView>,
>
    decreases attrs.len(),
{
    if attrs.len() == 0 {
        Seq::empty()
    } else {
        outcomes(source, attrs.drop_last()) + attr_outcomes(source, attrs.last())
    }
}

/// What the attributes of a field say of it: first all directives of this
/// crate, then what serde was told.
pub open spec fn settings_of(attrs: Seq<AttributeView>) -> Progress {
    scan(
        scan(Ok(Some(SettingsView::initial())), outcomes(Source::Directives, attrs)),
        outcomes(Source::Customizations, attrs),
    )
}

/// Reading on past a `skip` or a refusal changes nothing.
pub proof fn lemma_scan_final(
    progress: Progress,
    outcomes: Seq<Result<EffectView, ExpansionErrorView>>,
)
    requires
        !(progress matches Ok(Some(_))),
    ensures
        scan(progress, outcomes) == progress,
    decreases outcomes.len(),
{
    if outcomes.len() > 0 {
        lemma_scan_final(progress, outcomes.drop_last());
    }
}

/// Reading two sequences, one after the other, is reading their
/// concatenation.
pub proof fn lemma_scan_concat(
    progress: Progress,
    first: Seq<Result<EffectView, ExpansionErrorView>>,
    second: Seq<Result<EffectView, ExpansionErrorView>>,
)
    ensures
        scan(progress, first + second) == scan(scan(progress, first), second),
    decreases second.len(),
{
    if second.len() == 0 {
        assert(first + second =~= first);
    } else {
        assert((first + second).drop_last() =~= first + second.drop_last());
        lemma_scan_concat(progress, first, second.drop_last());
    }
}

/// The outcomes of a list of attributes are those of its two parts, in
/// order.
pub proof fn lemma_outcomes_split(source: Source, attrs: Seq<AttributeView>, k: int)
    requires
        0 <= k <= attrs.len(),
    ensures
        outcomes(source, attrs) == outcomes(source, attrs.take(k)) + outcomes(
            source,
            attrs.skip(k),
        ),
    decreases attrs.len(),
{
    if k == attrs.len() {
        assert(attrs.take(k) =~= attrs);
        assert(attrs.skip(k) =~= Seq::<AttributeView>::empty());
        assert(outcomes(source, attrs) + Seq::empty() =~= outcomes(source, attrs));
    } else {
        lemma_outcomes_split(source, attrs.drop_last(), k);
        assert(attrs.drop_last().take(k) =~= attrs.take(k));
        assert(attrs.drop_last().skip(k) =~= attrs.skip(k).drop_last());
        assert(attrs.skip(k).last() == attrs.last());
        assert(outcomes(source, attrs.take(k)) + (outcomes(source, attrs.skip(k).drop_last())
            + attr_outcomes(source, attrs.last())) =~= (outcomes(source, attrs.take(k))
            + outcomes(source, attrs.skip(k).drop_last())) + attr_outcomes(source, attrs.last()));
    }
}

/// Reads the arguments of one attribute, from `settings` on.
fn scan_attr(source: Source, attr: &Attribute, from: Settings) -> (progress: Result<
    Option<Settings>,
    ExpansionError,
>)
    ensures
        progress_view(progress) == scan(Ok(Some(from@)), attr_outcomes(source, attr@)),
{
    if !attr.path.is_ident(source.name()) {
        return Ok(Some(from));
    }
    match &attr.meta {
        Meta::List(nested) => {
            let ghost all = attr_outcomes(source, attr@);
            let ghost start = from@;
            let mut settings = from;
            let mut i: usize = 0;
            while i < nested.len()
                invariant
                    i <= nested.len(),
                    start == from@,
                    all == attr_outcomes(source, attr@),
                    all == views(nested@).map_values(|meta: NestedMetaView| source.effect(meta)),
                    scan(Ok(Some(start)), all.take(i as int)) == Ok::<
                        Option<SettingsView>,
                        ExpansionErrorView,
                    >(Some(settings@)),
                decreases nested.len() - i,
            {
                proof {
                    assert(all.take(i + 1).drop_last() =~= all.take(i as int));
                    assert(all.take(i + 1).last() == source.effect(nested@[i as int]@));
                    assert(all =~= all.take(i + 1) + all.skip(i + 1));
                    lemma_scan_concat(Ok(Some(start)), all.take(i + 1), all.skip(i + 1));
                }
                match source.read(&nested[i]) {
                    Ok(effect) => match settings.apply(effect) {
                        Some(next) => {
                            settings = next;
                        },
                        None => {
                            proof {
                                lemma_scan_final(Ok(None), all.skip(i + 1));
                            }
                            return Ok(None);
                        },
                    },
                    Err(error) => {
                        proof {
                            lemma_scan_final(Err(error@), all.skip(i + 1));
                        }
                        return Err(error);
                    },
                }
                i += 1;
            }
            proof {
                assert(all.take(i as int) =~= all);
            }
            Ok(Some(settings))
        },
        Meta::Tokens(_) => {
            proof {
                let all = attr_outcomes(source, attr@);
                assert(all.drop_last() =~= Seq::empty());
                assert(scan(Ok(Some(from@)), all.drop_last()) == Ok::<
                    Option<SettingsView>,
                    ExpansionErrorView,
                >(Some(from@)));
            }
            Err(ExpansionError::MalformedAttribute)
        },
        _ => Ok(Some(from)),
    }
}

/// The view of the progress that the executable code keeps.
pub open spec fn progress_view(progress: Result<Option<Settings>, ExpansionError>) -> Progress {
    match progress {
        Ok(settings) => Ok(option_view(settings)),
        Err(error) => Err(error@),
    }
}

/// Reads the attributes of one source, in order, from `settings` on.
pub fn scan_attrs(source: Source, attrs: &Vec<Attribute>, from: Settings) -> (progress:
    Result<Option<Settings>, ExpansionError>)
    ensures
        progress_view(progress) == scan(Ok(Some(from@)), outcomes(source, views(attrs@))),
{
    let ghost all = views(attrs@);
    let ghost start = from@;
    let mut settings = from;
    let mut i: usize = 0;
    while i < attrs.len()
        invariant
            i <= attrs.len(),
            start == from@,
            all == views(attrs@),
            scan(Ok(Some(start)), outcomes(source, all.take(i as int))) == Ok::<
                Option<SettingsView>,
                ExpansionErrorView,
            >(Some(settings@)),
        decreases attrs.len() - i,
    {
        proof {
            assert(all.take(i + 1).drop_last() =~= all.take(i as int));
            assert(all.take(i + 1).last() == attrs@[i as int]@);
            lemma_scan_concat(
                Ok(Some(start)),
                outcomes(source, all.take(i as int)),
                attr_outcomes(source, attrs@[i as int]@),
            );
            lemma_outcomes_split(source, all, i + 1);
            lemma_scan_concat(
                Ok(Some(start)),
                outcomes(source, all.take(i + 1)),
                outcomes(source, all.skip(i + 1)),
            );
        }
        match scan_attr(source, &attrs[i], settings) {
            Ok(Some(next)) => {
                settings = next;
            },
            Ok(None) => {
                proof {
                    lemma_scan_final(Ok(None), outcomes(source, all.skip(i + 1)));
                }
                return Ok(None);
            },
            Err(error) => {
                proof {
                    lemma_scan_final(Err(error@), outcomes(source, all.skip(i + 1)));
                }
                return Err(error);
            },
        }
        i += 1;
    }
    proof {
        assert(all.take(i as int) =~= all);
    }
    Ok(Some(settings))
}

/// A field that is a (potentially) big array, with what is needed to
/// generate its functions.
#[derive(Clone, Debug, PartialEq, Eq)]
pub struct BigArrayField {
    /// The position of the field among all fields of the definition.
    pub index: usize,
    /// The length of the array, as it is to be written.
    pub len: String,
    pub serialize: bool,
    pub deserialize: bool,
    /// The element type, where the declared type is an array.
    pub element_type: Option<ElementType>,
}

pub struct BigArrayFieldView {
    pub index: nat,
    pub len: Seq<char>,
    pub serialize: bool,
    pub deserialize: bool,
    pub element_type: Option<ElementTypeView>,
}

impl View for BigArrayField {
    type V = BigArrayFieldView;

    open spec fn view(&self) -> BigArrayFieldView {
        BigArrayFieldView {
            index: self.index as nat,
            len: self.len@,
            serialize: self.serialize,
            deserialize: self.deserialize,
            element_type: option_view(self.element_type),
        }
    }
}

/// The outcome of classifying a field: refused, nothing to generate, or a
/// big array.
pub type Classification = Result<Option<BigArrayFieldView>, ExpansionErrorView>;

/// The view of a classification that the executable code holds.
pub open spec fn classification_view(
    outcome: Result<Option<BigArrayField>, ExpansionError>,
) -> Classification {
    match outcome {
        Ok(field) => Ok(option_view(field)),
        Err(error) => Err(error@),
    }
}

/// The length that a declared type gives by itself: that of an array whose
/// length is a literal above the threshold, or a path to a constant, whose
/// value is not looked at.
pub open spec fn type_len(ty: TypeView) -> Result<Option<Seq<char>>, ExpansionErrorView> {
    match ty {
        TypeView::Array(_, ArrayLenView::Int(digits)) => match decimal_value(digits) {
            Some(n) => if n > usize::MAX {
                Err(ExpansionErrorView::InvalidLength(digits))
            } else if n > THRESHOLD {
                Ok(Some(digits))
            } else {
                Ok(None)
            },
            None => Err(ExpansionErrorView::InvalidLength(digits)),
        },
        TypeView::Array(_, ArrayLenView::Path(tokens)) => Ok(Some(tokens)),
        _ => Ok(None),
    }
}

/// The element type of a declared type, where that is an array.
pub open spec fn element_type(ty: TypeView) -> Option<ElementTypeView> {
    match ty {
        TypeView::Array(elem, _) => Some(elem),
        TypeView::Other => None,
    }
}

/// The classification of a field at position `index`. A `bufsize` decides
/// the length whatever the declared type is; without one the type decides.
pub open spec fn classify(field: FieldView, index: nat) -> Classification {
    match settings_of(field.attrs) {
        Err(error) => Err(error),
        Ok(None) => Ok(None),
        Ok(Some(settings)) => {
            let len = match settings.len {
                Some(len) => Ok(Some(len)),
                None => type_len(field.ty),
            };
            match len {
                Err(error) => Err(error),
                Ok(None) => Ok(None),
                Ok(Some(len)) => Ok(
                    Some(
                        BigArrayFieldView {
                            index,
                            len,
                            serialize: settings.serialize,
                            deserialize: settings.deserialize,
                            element_type: element_type(field.ty),
                        },
                    ),
                ),
            }
        },
    }
}

/// Whether an attribute is one of this crate's own.
pub open spec fn is_directive(attr: AttributeView) -> bool {
    attr.path.is_ident("serbia"@)
}

/// The test by which `strip` keeps an attribute.
pub open spec fn survives() -> spec_fn(AttributeView) -> bool {
    |attr: AttributeView| !is_directive(attr)
}

/// The attributes that stay on a field: all but this crate's own, in order.
pub open spec fn strip(attrs: Seq<AttributeView>) -> Seq<AttributeView> {
    attrs.filter(survives())
}

/// The field as it is handed on: without this crate's own attributes.
pub open spec fn stripped(field: FieldView) -> FieldView {
    FieldView { attrs: strip(field.attrs), ..field }
}

fn read_type_len(ty: &Type) -> (len: Result<Option<String>, ExpansionError>)
    ensures
        match len {
            Ok(len) => type_len(ty@) == Ok::<Option<Seq<char>>, ExpansionErrorView>(
                option_view(len),
            ),
            Err(error) => type_len(ty@) == Err::<Option<Seq<char>>, ExpansionErrorView>(error@),
        },
{
    match ty {
        Type::Array(_, ArrayLen::Int(digits)) => match parse_decimal(digits.as_str()) {
            Some(n) => if n > THRESHOLD {
                Ok(Some(digits.clone()))
            } else {
                Ok(None)
            },
            None => Err(ExpansionError::InvalidLength(digits.clone())),
        },
        Type::Array(_, ArrayLen::Path(tokens)) => Ok(Some(tokens.clone())),
        _ => Ok(None),
    }
}

fn read_element_type(ty: &Type) -> (elem: Option<ElementType>)
    ensures
        option_view(elem) == element_type(ty@),
{
    match ty {
        Type::Array(elem, _) => Some(elem.clone()),
        Type::Other => None,
    }
}

/// Takes this crate's own attributes out of `attrs`.
pub fn strip_directives(attrs: &mut Vec<Attribute>)
    ensures
        views(final(attrs)@) == strip(views(old(attrs)@)),
{
    let ghost original = views(attrs@);
    let mut i: usize = 0;
    proof {
        assert(views(attrs@).skip(0) =~= original);
        assert(views(attrs@).take(0) + strip(original) =~= strip(original));
    }
    while i < attrs.len()
        invariant
            i <= attrs.len(),
            strip(original) == views(attrs@).take(i as int) + strip(views(attrs@).skip(i as int)),
        decreases attrs.len() - i,
    {
        let ghost before = views(attrs@);
        proof {
            let head = seq![before[i as int]];
            let tail = before.skip(i + 1);
            assert(before.skip(i as int) =~= head + tail);
            Seq::filter_distributes_over_add(head, tail, survives());
            assert(head.drop_last() =~= Seq::<AttributeView>::empty());
            assert(head.drop_last().filter(survives()) =~= Seq::<AttributeView>::empty()) by {
                reveal(Seq::filter);
            }
            assert(head.filter(survives()) =~= if is_directive(before[i as int]) {
                Seq::<AttributeView>::empty()
            } else {
                head
            }) by {
                reveal(Seq::filter);
            }
        }
        if attrs[i].path.is_ident("serbia") {
            attrs.remove(i);
            proof {
                assert(views(attrs@).take(i as int) =~= before.take(i as int));
                assert(views(attrs@).skip(i as int) =~= before.skip(i + 1));
            }
        } else {
            i += 1;
            proof {
                assert(before.take(i as int) =~= before.take(i - 1) + seq![before[i - 1]]);
            }
        }
    }
    proof {
        assert(views(attrs@).take(i as int) =~= views(attrs@));
        assert(views(attrs@).skip(i as int) =~= Seq::<AttributeView>::empty());
        assert(strip(Seq::<AttributeView>::empty()) =~= Seq::<AttributeView>::empty()) by {
            reveal(Seq::filter);
        }
    }
}

impl BigArrayField {
    /// Classifies the field at position `index` among the fields of its
    /// definition.
    pub fn classify(field: &Field, index: usize) -> (outcome: Result<
        Option<BigArrayField>,
        ExpansionError,
    >)
        ensures
            classification_view(outcome) == classify(field@, index as nat),
    {
        let settings = match scan_attrs(Source::Directives, &field.attrs, Settings::new()) {
            Ok(Some(settings)) => settings,
            Ok(None) => {
                proof {
                    lemma_scan_final(
                        Ok(None),
                        outcomes(Source::Customizations, views(field.attrs@)),
                    );
                }
                return Ok(None);
            },
            Err(error) => {
                proof {
                    lemma_scan_final(
                        Err(error@),
                        outcomes(Source::Customizations, views(field.attrs@)),
                    );
                }
                return Err(error);
            },
        };
        let settings = match scan_attrs(Source::Customizations, &field.attrs, settings) {
            Ok(Some(settings)) => settings,
            Ok(None) => {
                return Ok(None);
            },
            Err(error) => {
                return Err(error);
            },
        };
        let len = match settings.len {
            Some(len) => len,
            None => match read_type_len(&field.ty) {
                Ok(Some(len)) => len,
                Ok(None) => {
                    return Ok(None);
                },
                Err(error) => {
                    return Err(error);
                },
            },
        };
        Ok(
            Some(
                BigArrayField {
                    index,
                    len,
                    serialize: settings.serialize,
                    deserialize: settings.deserialize,
                    element_type: read_element_type(&field.ty),
                },
            ),
        )
    }

    /// Classifies the field and, unless it is refused, takes this crate's
    /// own attributes off it.
    pub fn parse_field(field: &mut Field, index: usize) -> (outcome: Result<
        Option<BigArrayField>,
        ExpansionError,
    >)
        ensures
            classification_view(outcome) == classify(old(field)@, index as nat),
            final(field)@ == if outcome is Ok {
                stripped(old(field)@)
            } else {
                old(field)@
            },
    {
        let outcome = BigArrayField::classify(field, index);
        if outcome.is_ok() {
            strip_directives(&mut field.attrs);
        }
        outcome
    }
}

} // verus!
