//! Decides, for one struct or enum definition, which fixed-size array fields
//! need hand-written serde functions, writes those functions, and points the
//! fields to them.
//!
//! serde handles arrays of up to 32 elements by itself. For a longer array
//! this crate generates a serialize and a deserialize function, and gives
//! the field the attributes `serialize_with` and `deserialize_with` that
//! name them. It works on a definition as the attribute `#[serbia]` sees it,
//! before serde's derives run:
//!
//! ```text
//! #[serbia]
//! #[derive(Serialize, Deserialize)]
//! struct S {
//!     arr_big: [u8; 300],     // gets a function for each derived trait
//!     arr_small: [u8; 8],     // is left to serde
//! }
//! ```
//!
//! A length that is a path to a constant is taken as big without looking at
//! the constant. On a field, `#[serbia(skip)]` leaves the field alone,
//! `#[serbia(skip_serializing)]` and `#[serbia(skip_deserializing)]` leave
//! one direction alone, and `#[serbia(bufsize = 300)]` or
//! `#[serbia(bufsize = "BUFSIZE")]` gives the length, which serves where the
//! type of the field is an alias of an array type. A direction for which
//! the field has a serde attribute of its own, such as `serialize_with`,
//! is left to that attribute. An array inside another type, as in
//! `Option<[u8; 300]>`, is not seen.
//!
//! [`serbia`] is the whole expansion; `item` holds the definition and the
//! classification of its fields, `codegen` the functions and attributes,
//! `rewrite` the rewriting of the definition, and `laws` what is proved of
//! all of it. The definition is given in the types of `syntax`, which hold
//! what the decisions read of a syntax tree.

pub mod codegen;
pub mod error;
pub mod item;
pub mod laws;
pub mod names;
pub mod rewrite;
pub mod syntax;
pub mod text;

use vstd::prelude::*;
use crate::codegen::{GeneratedFunction, GeneratedFunctionView};
use crate::error::{ExpansionError, ExpansionErrorView};
use crate::item::{lemma_plan_positions, plan, Definition, DefinitionView, Item, ItemView};
use crate::rewrite::{all_functions, rewrite_item};
use crate::syntax::views;

verus! {

/// What the attribute turns a definition into: the definition, rewritten,
/// and the functions that follow it.
#[derive(Clone, Debug, PartialEq, Eq)]
pub struct Expansion {
    pub item: Item,
    pub functions: Vec<GeneratedFunction>,
}

pub struct ExpansionView {
    pub item: ItemView,
    pub functions: Seq<GeneratedFunctionView>,
}

impl View for Expansion {
    type V = ExpansionView;

    open spec fn view(&self) -> ExpansionView {
        ExpansionView { item: self.item@, functions: views(self.functions@) }
    }
}

/// The expansion of a definition. It is refused where the definition is
/// neither a struct nor an enum, and where a field is refused: the first
/// such field, in the order of the indices, gives the reason.
pub open spec fn expand(input: DefinitionView) -> Result<ExpansionView, ExpansionErrorView> {
    match input.item() {
        Err(error) => Err(error),
        Ok(item) => match plan(item.fields()) {
            Err(error) => Err(error),
            Ok(plan) => Ok(
                ExpansionView {
                    item: rewrite_item(item, item.context(), plan),
                    functions: all_functions(item.context(), plan),
                },
            ),
        },
    }
}

/// The view of an outcome of `serbia`.
pub open spec fn outcome_view(outcome: Result<Expansion, ExpansionError>) -> Result<
    ExpansionView,
    ExpansionErrorView,
> {
    match outcome {
        Ok(expansion) => Ok(expansion@),
        Err(error) => Err(error@),
    }
}

/// Expands a definition that carries the attribute.
pub fn serbia(input: Definition) -> (outcome: Result<Expansion, ExpansionError>)
    ensures
        outcome_view(outcome) == expand(input@),
{
    let mut item = match Item::parse(input) {
        Ok(item) => item,
        Err(error) => {
            return Err(error);
        },
    };
    let context = item.context();
    let plan = match item.classify_all() {
        Ok(plan) => plan,
        Err(error) => {
            return Err(error);
        },
    };
    proof {
        lemma_plan_positions(item@.fields());
    }
    let functions = item.rewrite(&plan, &context);
    Ok(Expansion { item, functions })
}

} // verus!
