//! The parts of a type definition that the decisions of this crate read:
//! attributes down to their arguments, and of each field's type no more than
//! whether it is an array, of what, and how long.
//!
//! Every type here has a view, a value made of sequences of characters, and
//! the contracts of the crate are stated over the views.

use vstd::prelude::*;
use crate::text::str_eq;

verus! {

/// The views of the items of a sequence, in order.
pub open spec fn views<T: View>(items: Seq<T>) -> Seq<T::V> {
    items.map_values(|item: T| item@)
}

/// The view of what an optional value holds.
pub open spec fn option_view<T: View>(value: Option<T>) -> Option<T::V> {
    match value {
        Some(inner) => Some(inner@),
        None => None,
    }
}

/// The view of what a result holds, on either side.
pub open spec fn result_view<T: View, E: View>(result: Result<T, E>) -> Result<T::V, E::V> {
    match result {
        Ok(value) => Ok(value@),
        Err(error) => Err(error@),
    }
}

/// A path such as `serde` or `serde::Serialize`, without generic arguments.
#[derive(Clone, Debug, PartialEq, Eq)]
pub struct Path {
    pub leading_colon: bool,
    pub segments: Vec<String>,
}

pub struct PathView {
    pub leading_colon: bool,
    pub segments: Seq<Seq<char>>,
}

impl PathView {
    /// The identifier that the path consists of, if it is a single segment
    /// without a leading `::`.
    pub open spec fn ident(self) -> Option<Seq<char>> {
        if !self.leading_colon && self.segments.len() == 1 {
            Some(self.segments[0])
        } else {
            None
        }
    }

    /// Whether the path is the single identifier `name`.
    pub open spec fn is_ident(self, name: Seq<char>) -> bool {
        self.ident() == Some(name)
    }

    /// Whether the last segment of the path is `name`.
    pub open spec fn ends_with(self, name: Seq<char>) -> bool {
        self.segments.len() > 0 && self.segments.last() == name
    }
}

impl View for Path {
    type V = PathView;

    open spec fn view(&self) -> PathView {
        PathView { leading_colon: self.leading_colon, segments: views(self.segments@) }
    }
}

impl Path {
    /// The identifier that the path consists of, if it is one.
    pub fn get_ident(&self) -> (ident: Option<&String>)
        ensures
            match ident {
                Some(name) => self@.ident() == Some(name@),
                None => self@.ident() is None,
            },
    {
        if !self.leading_colon && self.segments.len() == 1 {
            Some(&self.segments[0])
        } else {
            None
        }
    }

    /// Whether the path is the single identifier `name`.
    pub fn is_ident(&self, name: &str) -> (yes: bool)
        ensures
            yes == self@.is_ident(name@),
    {
        match self.get_ident() {
            Some(ident) => str_eq(ident.as_str(), name),
            None => false,
        }
    }

    /// Whether the last segment of the path is `name`.
    pub fn ends_with(&self, name: &str) -> (yes: bool)
        ensures
            yes == self@.ends_with(name@),
    {
        let n = self.segments.len();
        n > 0 && str_eq(self.segments[n - 1].as_str(), name)
    }
}

/// A literal: a string by its value, any other literal as it is written.
#[derive(Debug, PartialEq, Eq)]
pub enum Lit {
    Str(String),
    Other(String),
}

pub enum LitView {
    Str(Seq<char>),
    Other(Seq<char>),
}

impl View for Lit {
    type V = LitView;

    open spec fn view(&self) -> LitView {
        match self {
            Lit::Str(value) => LitView::Str(value@),
            Lit::Other(tokens) => LitView::Other(tokens@),
        }
    }
}

impl Clone for Lit {
    fn clone(&self) -> (copy: Self)
        ensures
            copy@ == self@,
    {
        match self {
            Lit::Str(value) => Lit::Str(value.clone()),
            Lit::Other(tokens) => Lit::Other(tokens.clone()),
        }
    }
}

/// One argument between the parentheses of an attribute.
#[derive(Clone, Debug, PartialEq, Eq)]
pub enum NestedMeta {
    /// `skip`
    Path(Path),
    /// `bufsize = 300`
    NameValue(Path, Lit),
    /// `bound(..)`, with what stands between its parentheses as it is written
    List(Path, String),
    /// `"text"`
    Lit(Lit),
}

pub enum NestedMetaView {
    Path(PathView),
    NameValue(PathView, LitView),
    List(PathView, Seq<char>),
    Lit(LitView),
}

impl NestedMetaView {
    /// The path that the argument begins with; a literal has none.
    pub open spec fn path(self) -> Option<PathView> {
        match self {
            NestedMetaView::Path(path) => Some(path),
            NestedMetaView::NameValue(path, _) => Some(path),
            NestedMetaView::List(path, _) => Some(path),
            NestedMetaView::Lit(_) => None,
        }
    }
}

impl View for NestedMeta {
    type V = NestedMetaView;

    open spec fn view(&self) -> NestedMetaView {
        match self {
            NestedMeta::Path(path) => NestedMetaView::Path(path@),
            NestedMeta::NameValue(path, lit) => NestedMetaView::NameValue(path@, lit@),
            NestedMeta::List(path, tokens) => NestedMetaView::List(path@, tokens@),
            NestedMeta::Lit(lit) => NestedMetaView::Lit(lit@),
        }
    }
}

impl NestedMeta {
    /// The path that the argument begins with; a literal has none.
    pub fn path(&self) -> (path: Option<&Path>)
        ensures
            match path {
                Some(p) => self@.path() == Some(p@),
                None => self@.path() is None,
            },
    {
        match self {
            NestedMeta::Path(path) => Some(path),
            NestedMeta::NameValue(path, _) => Some(path),
            NestedMeta::List(path, _) => Some(path),
            NestedMeta::Lit(_) => None,
        }
    }
}

/// What follows the path of an attribute.
#[derive(Clone, Debug, PartialEq, Eq)]
pub enum Meta {
    /// nothing: `#[serbia]`
    Path,
    /// a list of arguments: `#[serbia(skip)]`
    List(Vec<NestedMeta>),
    /// a value: `#[doc = "text"]`
    NameValue(Lit),
    /// anything else, as it is written
    Tokens(String),
}

pub enum MetaView {
    Path,
    List(Seq<NestedMetaView>),
    NameValue(LitView),
    Tokens(Seq<char>),
}

impl View for Meta {
    type V = MetaView;

    open spec fn view(&self) -> MetaView {
        match self {
            Meta::Path => MetaView::Path,
            Meta::List(nested) => MetaView::List(views(nested@)),
            Meta::NameValue(lit) => MetaView::NameValue(lit@),
            Meta::Tokens(tokens) => MetaView::Tokens(tokens@),
        }
    }
}

/// An attribute: its path, and what follows the path.
#[derive(Clone, Debug, PartialEq, Eq)]
pub struct Attribute {
    pub path: Path,
    pub meta: Meta,
}

pub struct AttributeView {
    pub path: PathView,
    pub meta: MetaView,
}

impl View for Attribute {
    type V = AttributeView;

    open spec fn view(&self) -> AttributeView {
        AttributeView { path: self.path@, meta: self.meta@ }
    }
}

/// The element type of an array, as far as it is read: a bare identifier,
/// which may name a type parameter, or anything else.
#[derive(Debug, PartialEq, Eq)]
pub enum ElementType {
    Ident(String),
    Other,
}

pub enum ElementTypeView {
    Ident(Seq<char>),
    Other,
}

impl View for ElementType {
    type V = ElementTypeView;

    open spec fn view(&self) -> ElementTypeView {
        match self {
            ElementType::Ident(name) => ElementTypeView::Ident(name@),
            ElementType::Other => ElementTypeView::Other,
        }
    }
}

impl Clone for ElementType {
    fn clone(&self) -> (copy: Self)
        ensures
            copy@ == self@,
    {
        match self {
            ElementType::Ident(name) => ElementType::Ident(name.clone()),
            ElementType::Other => ElementType::Other,
        }
    }
}

/// The length of an array type.
#[derive(Clone, Debug, PartialEq, Eq)]
pub enum ArrayLen {
    /// an integer literal, by its decimal digits
    Int(String),
    /// a path to a constant, as it is written
    Path(String),
    /// any other expression
    Other,
}

pub enum ArrayLenView {
    Int(Seq<char>),
    Path(Seq<char>),
    Other,
}

impl View for ArrayLen {
    type V = ArrayLenView;

    open spec fn view(&self) -> ArrayLenView {
        match self {
            ArrayLen::Int(digits) => ArrayLenView::Int(digits@),
            ArrayLen::Path(tokens) => ArrayLenView::Path(tokens@),
            ArrayLen::Other => ArrayLenView::Other,
        }
    }
}

/// The declared type of a field.
#[derive(Clone, Debug, PartialEq, Eq)]
pub enum Type {
    Array(ElementType, ArrayLen),
    Other,
}

pub enum TypeView {
    Array(ElementTypeView, ArrayLenView),
    Other,
}

impl View for Type {
    type V = TypeView;

    open spec fn view(&self) -> TypeView {
        match self {
            Type::Array(elem, len) => TypeView::Array(elem@, len@),
            Type::Other => TypeView::Other,
        }
    }
}

/// The two directions in which a value passes through serde.
#[derive(Clone, Copy, Debug, PartialEq, Eq, Structural)]
pub enum Direction {
    Serialize,
    Deserialize,
}

/// A serde attribute that this crate attaches to a field.
#[derive(Clone, Debug, PartialEq, Eq)]
pub enum Hook {
    /// `#[serde(serialize_with = "..")]`, with the name of the function
    SerializeWith(String),
    /// `#[serde(deserialize_with = "..")]`, with the name of the function
    DeserializeWith(String),
    /// `#[serde(bound(serialize = ".."))]` or `#[serde(bound(deserialize = ".."))]`,
    /// with the predicate
    Bound(Direction, String),
}

pub enum HookView {
    SerializeWith(Seq<char>),
    DeserializeWith(Seq<char>),
    Bound(Direction, Seq<char>),
}

impl View for Hook {
    type V = HookView;

    open spec fn view(&self) -> HookView {
        match self {
            Hook::SerializeWith(name) => HookView::SerializeWith(name@),
            Hook::DeserializeWith(name) => HookView::DeserializeWith(name@),
            Hook::Bound(direction, predicate) => HookView::Bound(*direction, predicate@),
        }
    }
}

/// A field of a struct or of an enum variant.
#[derive(Clone, Debug, PartialEq, Eq)]
pub struct Field {
    /// The attributes that the definition gives the field.
    pub attrs: Vec<Attribute>,
    /// The attributes that this crate adds; they follow `attrs`.
    pub hooks: Vec<Hook>,
    pub ty: Type,
}

pub struct FieldView {
    pub attrs: Seq<AttributeView>,
    pub hooks: Seq<HookView>,
    pub ty: TypeView,
}

impl View for Field {
    type V = FieldView;

    open spec fn view(&self) -> FieldView {
        FieldView { attrs: views(self.attrs@), hooks: views(self.hooks@), ty: self.ty@ }
    }
}

} // verus!
