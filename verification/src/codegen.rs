//! What is generated for a big array field: the two functions, as text, and
//! the serde attributes that point to them.

use vstd::prelude::*;
use vstd::string::*;
use crate::item::fields::{BigArrayField, BigArrayFieldView};
use crate::item::{Context, ContextView};
use crate::names::{fn_name, function_name};
use crate::syntax::{
    option_view, views, Direction, ElementType, ElementTypeView, Field, Hook, HookView,
};
use crate::text::str_eq;

verus! {

/// The pieces of the two functions between which the name and the length
/// are written.
pub const FN_HEAD: &'static str = "fn ";

pub const SERIALIZE_PARAMS: &'static str = "<E, S>(array: &[E; ";

pub const SERIALIZE_BODY: &'static str =
    "], serializer: S) -> core::result::Result<S::Ok, S::Error>\n\
where\n    E: serde::Serialize,\n    S: serde::Serializer,\n\
{\n    let mut seq = serializer.serialize_tuple(";

pub const SERIALIZE_TAIL: &'static str =
    ")?;\n    for e in array {\n        \
serde::ser::SerializeTuple::serialize_element(&mut seq, e)?;\n    }\n    \
serde::ser::SerializeTuple::end(seq)\n}\n";

/// The text of the serialize function `fn_ident` for an array of length
/// `len`: it writes a tuple of `len` elements, the elements of the array in
/// ascending order, and stops at the first element that fails.
pub open spec fn serialize_fn_text(fn_ident: Seq<char>, len: Seq<char>) -> Seq<char> {
    FN_HEAD@ + fn_ident + SERIALIZE_PARAMS@ + len + SERIALIZE_BODY@ + len + SERIALIZE_TAIL@
}

/// Writes the serialize function `fn_ident` for an array of length `len`.
pub fn render_serialize_fn(fn_ident: &str, len: &str) -> (text: String)
    ensures
        text@ == serialize_fn_text(fn_ident@, len@),
{
    String::from_str(FN_HEAD).concat(fn_ident).concat(SERIALIZE_PARAMS).concat(len).concat(
        SERIALIZE_BODY,
    ).concat(len).concat(SERIALIZE_TAIL)
}

pub const DESERIALIZE_PARAMS: &'static str =
    "<'de, E, D>(deserializer: D) -> core::result::Result<[E; ";

pub const DESERIALIZE_VISITOR: &'static str =
    "], D::Error>\n\
where\n    E: serde::Deserialize<'de>,\n    D: serde::Deserializer<'de>,\n\
{\n    struct ArrayVisitor<E> {\n        _casper: std::marker::PhantomData<E>,\n    }\n\n    \
impl<'de, E> serde::de::Visitor<'de> for ArrayVisitor<E>\n    where\n        \
E: serde::Deserialize<'de>,\n    {\n        type Value = [E; ";

pub const DESERIALIZE_LOOP: &'static str =
    "];\n\n        \
fn expecting(&self, formatter: &mut std::fmt::Formatter) -> std::fmt::Result {\n            \
formatter.write_str(\"an array\")\n        }\n\n        \
fn visit_seq<A>(self, mut seq: A) -> core::result::Result<Self::Value, A::Error>\n        \
where\n            A: serde::de::SeqAccess<'de>,\n        {\n            \
let mut items: std::vec::Vec<E> = std::vec::Vec::new();\n            \
while items.len() < ";

pub const DESERIALIZE_CONVERT: &'static str =
    " {\n                match seq.next_element()? {\n                    \
core::option::Option::Some(item) => items.push(item),\n                    \
core::option::Option::None => {\n                        \
return core::result::Result::Err(serde::de::Error::invalid_length(items.len(), &self));\n                    \
}\n                }\n            }\n            match <[E; ";

pub const DESERIALIZE_CALL: &'static str =
    "] as core::convert::TryFrom<std::vec::Vec<E>>>::try_from(items) {\n                \
core::result::Result::Ok(array) => core::result::Result::Ok(array),\n                \
core::result::Result::Err(items) => {\n                    \
core::result::Result::Err(serde::de::Error::invalid_length(items.len(), &self))\n                \
}\n            }\n        }\n    }\n\n    deserializer.deserialize_tuple(";

pub const DESERIALIZE_TAIL: &'static str =
    ", ArrayVisitor { _casper: std::marker::PhantomData })\n}\n";

/// The text of the deserialize function `fn_ident` for an array of length
/// `len`: it reads a tuple of `len` elements into a vector, in order, and
/// never more than `len`. Where the input ends early it fails with the
/// number of elements read; the vector then drops what it holds, and nothing
/// else.
pub open spec fn deserialize_fn_text(fn_ident: Seq<char>, len: Seq<char>) -> Seq<char> {
    FN_HEAD@ + fn_ident + DESERIALIZE_PARAMS@ + len + DESERIALIZE_VISITOR@ + len
        + DESERIALIZE_LOOP@ + len + DESERIALIZE_CONVERT@ + len + DESERIALIZE_CALL@ + len
        + DESERIALIZE_TAIL@
}

/// Writes the deserialize function `fn_ident` for an array of length `len`.
pub fn render_deserialize_fn(fn_ident: &str, len: &str) -> (text: String)
    ensures
        text@ == deserialize_fn_text(fn_ident@, len@),
{
    String::from_str(FN_HEAD).concat(fn_ident).concat(DESERIALIZE_PARAMS).concat(len).concat(
        DESERIALIZE_VISITOR,
    ).concat(len).concat(DESERIALIZE_LOOP).concat(len).concat(DESERIALIZE_CONVERT).concat(
        len,
    ).concat(DESERIALIZE_CALL).concat(len).concat(DESERIALIZE_TAIL)
}

/// A function that is generated for one field and one direction.
#[derive(Clone, Debug, PartialEq, Eq)]
pub struct GeneratedFunction {
    pub name: String,
    pub direction: Direction,
    /// The index of the field that the function is for.
    pub index: usize,
    /// The length of the array, as it is written in the function.
    pub len: String,
}

pub struct GeneratedFunctionView {
    pub name: Seq<char>,
    pub direction: Direction,
    pub index: nat,
    pub len: Seq<char>,
}

impl GeneratedFunctionView {
    /// The function as text.
    pub open spec fn text(self) -> Seq<char> {
        match self.direction {
            Direction::Serialize => serialize_fn_text(self.name, self.len),
            Direction::Deserialize => deserialize_fn_text(self.name, self.len),
        }
    }
}

impl View for GeneratedFunction {
    type V = GeneratedFunctionView;

    open spec fn view(&self) -> GeneratedFunctionView {
        GeneratedFunctionView {
            name: self.name@,
            direction: self.direction,
            index: self.index as nat,
            len: self.len@,
        }
    }
}

impl GeneratedFunction {
    /// Writes the function.
    pub fn render(&self) -> (text: String)
        ensures
            text@ == self@.text(),
    {
        match self.direction {
            Direction::Serialize => render_serialize_fn(self.name.as_str(), self.len.as_str()),
            Direction::Deserialize => render_deserialize_fn(
                self.name.as_str(),
                self.len.as_str(),
            ),
        }
    }
}

/// What follows the type parameter in the bound of each direction.
pub const SERIALIZE_BOUND: &'static str = ": Serialize";

pub const DESERIALIZE_BOUND: &'static str = ": for<'d> Deserialize<'d>";

/// The type parameter that needs a bound of its own: the element type of
/// the array, where that is the bare name of a type parameter of the
/// definition. Behind a generated function serde no longer sees that the
/// field holds values of the parameter, and would leave the bound out.
pub open spec fn bound_param(
    type_params: Seq<Seq<char>>,
    element_type: Option<ElementTypeView>,
) -> Option<Seq<char>> {
    match element_type {
        Some(ElementTypeView::Ident(name)) => if type_params.contains(name) {
            Some(name)
        } else {
            None
        },
        _ => None,
    }
}

/// Finds the type parameter, if any, that needs a bound of its own for a
/// field with this element type.
pub fn compensate(element_type: &Option<ElementType>, type_params: &Vec<String>) -> (param:
    Option<String>)
    ensures
        option_view(param) == bound_param(views(type_params@), option_view(*element_type)),
{
    match element_type {
        Some(ElementType::Ident(name)) => {
            let mut i: usize = 0;
            while i < type_params.len()
                invariant
                    i <= type_params.len(),
                    option_view(*element_type) == Some(ElementTypeView::Ident(name@)),
                    forall|k: int| 0 <= k < i ==> views(type_params@)[k] != name@,
                decreases type_params.len() - i,
            {
                if str_eq(type_params[i].as_str(), name.as_str()) {
                    assert(views(type_params@)[i as int] == name@);
                    return Some(name.clone());
                }
                i += 1;
            }
            None
        },
        _ => None,
    }
}

/// Whether a function is generated for a field in one direction: the
/// definition derives the trait of that direction, and nothing on the field
/// speaks against it.
pub open spec fn wanted(
    context: ContextView,
    field: BigArrayFieldView,
    direction: Direction,
) -> bool {
    match direction {
        Direction::Serialize => context.serialize && field.serialize,
        Direction::Deserialize => context.deserialize && field.deserialize,
    }
}

/// The attribute that points serde to the function `name`.
pub open spec fn with_hook(direction: Direction, name: Seq<char>) -> HookView {
    match direction {
        Direction::Serialize => HookView::SerializeWith(name),
        Direction::Deserialize => HookView::DeserializeWith(name),
    }
}

/// The attribute that bounds the type parameter `param` by the trait of the
/// direction.
pub open spec fn bound_hook(direction: Direction, param: Seq<char>) -> HookView {
    match direction {
        Direction::Serialize => HookView::Bound(direction, param + SERIALIZE_BOUND@),
        Direction::Deserialize => HookView::Bound(direction, param + DESERIALIZE_BOUND@),
    }
}

/// The attributes that a field gets for one direction.
pub open spec fn direction_hooks(
    context: ContextView,
    type_params: Seq<Seq<char>>,
    field: BigArrayFieldView,
    direction: Direction,
) -> Seq<HookView> {
    if wanted(context, field, direction) {
        let name = fn_name(direction, context.type_ident, field.index);
        match bound_param(type_params, field.element_type) {
            Some(param) => seq![with_hook(direction, name), bound_hook(direction, param)],
            None => seq![with_hook(direction, name)],
        }
    } else {
        Seq::empty()
    }
}

/// The functions that are generated for a field in one direction: one or
/// none.
pub open spec fn direction_functions(
    context: ContextView,
    field: BigArrayFieldView,
    direction: Direction,
) -> Seq<GeneratedFunctionView> {
    if wanted(context, field, direction) {
        seq![
            GeneratedFunctionView {
                name: fn_name(direction, context.type_ident, field.index),
                direction,
                index: field.index,
                len: field.len,
            },
        ]
    } else {
        Seq::empty()
    }
}

/// The attributes that a field gets by its classification: those for
/// serializing, then those for deserializing.
pub open spec fn hooks_for(
    context: ContextView,
    type_params: Seq<Seq<char>>,
    outcome: Option<BigArrayFieldView>,
) -> Seq<HookView> {
    match outcome {
        Some(field) => direction_hooks(context, type_params, field, Direction::Serialize)
            + direction_hooks(context, type_params, field, Direction::Deserialize),
        None => Seq::empty(),
    }
}

/// The functions that are generated for a field by its classification: the
/// one for serializing, then the one for deserializing.
pub open spec fn functions_for(
    context: ContextView,
    outcome: Option<BigArrayFieldView>,
) -> Seq<GeneratedFunctionView> {
    match outcome {
        Some(field) => direction_functions(context, field, Direction::Serialize)
            + direction_functions(context, field, Direction::Deserialize),
        None => Seq::empty(),
    }
}

fn attach_direction(
    field: &mut Field,
    big: &BigArrayField,
    context: &Context,
    param: &Option<String>,
    direction: Direction,
    functions: &mut Vec<GeneratedFunction>,
)
    ensures
        final(field).attrs == old(field).attrs,
        final(field).ty == old(field).ty,
        views(final(field).hooks@) == views(old(field).hooks@) + (if wanted(
            context@,
            big@,
            direction,
        ) {
            let name = fn_name(direction, context@.type_ident, big@.index);
            match option_view(*param) {
                Some(p) => seq![with_hook(direction, name), bound_hook(direction, p)],
                None => seq![with_hook(direction, name)],
            }
        } else {
            Seq::empty()
        }),
        views(final(functions)@) == views(old(functions)@) + direction_functions(
            context@,
            big@,
            direction,
        ),
{
    let enabled = match direction {
        Direction::Serialize => context.serialize && big.serialize,
        Direction::Deserialize => context.deserialize && big.deserialize,
    };
    if !enabled {
        assert(views(field.hooks@) + Seq::<HookView>::empty() =~= views(field.hooks@));
        assert(views(functions@) + Seq::<GeneratedFunctionView>::empty() =~= views(functions@));
        return ;
    }
    let ghost hooks_before = views(field.hooks@);
    let ghost functions_before = views(functions@);
    let name = function_name(direction, context.type_ident.as_str(), big.index);
    let hook = match direction {
        Direction::Serialize => Hook::SerializeWith(name.clone()),
        Direction::Deserialize => Hook::DeserializeWith(name.clone()),
    };
    field.hooks.push(hook);
    assert(views(field.hooks@) =~= hooks_before + seq![
        with_hook(direction, fn_name(direction, context@.type_ident, big@.index)),
    ]);
    match param {
        Some(p) => {
            let suffix = match direction {
                Direction::Serialize => SERIALIZE_BOUND,
                Direction::Deserialize => DESERIALIZE_BOUND,
            };
            field.hooks.push(Hook::Bound(direction, p.clone().concat(suffix)));
            assert(views(field.hooks@) =~= hooks_before + seq![
                with_hook(direction, fn_name(direction, context@.type_ident, big@.index)),
                bound_hook(direction, p@),
            ]);
        },
        None => {},
    }
    functions.push(GeneratedFunction { name, direction, index: big.index, len: big.len.clone() });
    assert(views(functions@) =~= functions_before + direction_functions(
        context@,
        big@,
        direction,
    ));
}

/// Gives a classified field its attributes, and adds its functions to
/// `functions`.
pub fn attach(
    field: &mut Field,
    big: &BigArrayField,
    context: &Context,
    type_params: &Vec<String>,
    functions: &mut Vec<GeneratedFunction>,
)
    ensures
        final(field).attrs == old(field).attrs,
        final(field).ty == old(field).ty,
        views(final(field).hooks@) == views(old(field).hooks@) + hooks_for(
            context@,
            views(type_params@),
            Some(big@),
        ),
        views(final(functions)@) == views(old(functions)@) + functions_for(context@, Some(big@)),
{
    let param = compensate(&big.element_type, type_params);
    let ghost hooks_before = views(field.hooks@);
    let ghost functions_before = views(functions@);
    attach_direction(field, big, context, &param, Direction::Serialize, functions);
    attach_direction(field, big, context, &param, Direction::Deserialize, functions);
    proof {
        let params = views(type_params@);
        let first = direction_hooks(context@, params, big@, Direction::Serialize);
        let second = direction_hooks(context@, params, big@, Direction::Deserialize);
        assert(views(field.hooks@) =~= hooks_before + (first + second));
        let f = direction_functions(context@, big@, Direction::Serialize);
        let g = direction_functions(context@, big@, Direction::Deserialize);
        assert(views(functions@) =~= functions_before + (f + g));
    }
}

} // verus!
