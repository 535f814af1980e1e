//! Rewriting a definition by a plan: every field loses this crate's own
//! attributes, and every big array field gets the attributes that point to
//! its functions.

use vstd::prelude::*;
use crate::codegen::{
    attach, functions_for, hooks_for, GeneratedFunction, GeneratedFunctionView,
};
use crate::item::fields::{strip, strip_directives, BigArrayField, BigArrayFieldView};
use crate::item::{
    flatten, plan_view, Context, ContextView, Item, ItemEnumView, ItemStructView, ItemView,
    VariantView,
};
use crate::syntax::{option_view, views, Field, FieldView};

verus! {

/// A field after the rewriting, given its classification.
pub open spec fn rewritten(
    field: FieldView,
    context: ContextView,
    type_params: Seq<Seq<char>>,
    outcome: Option<BigArrayFieldView>,
) -> FieldView {
    FieldView {
        attrs: strip(field.attrs),
        hooks: field.hooks + hooks_for(context, type_params, outcome),
        ty: field.ty,
    }
}

/// A list of fields after the rewriting, where the first of them has the
/// index `start`.
pub open spec fn rewrite_fields(
    fields: Seq<FieldView>,
    context: ContextView,
    type_params: Seq<Seq<char>>,
    plan: Seq<Option<BigArrayFieldView>>,
    start: int,
) -> Seq<FieldView> {
    Seq::new(fields.len(), |i: int| rewritten(fields[i], context, type_params, plan[start + i]))
}

/// The index of the first field of the variant at position `v`: the number
/// of fields of the variants before it.
pub open spec fn offset(variants: Seq<VariantView>, v: int) -> int {
    flatten(variants.take(v)).len() as int
}

/// A definition after the rewriting.
pub open spec fn rewrite_item(
    item: ItemView,
    context: ContextView,
    plan: Seq<Option<BigArrayFieldView>>,
) -> ItemView {
    match item {
        ItemView::Struct(s) => ItemView::Struct(
            ItemStructView {
                fields: rewrite_fields(s.fields, context, s.type_params, plan, 0),
                ..s
            },
        ),
        ItemView::Enum(e) => ItemView::Enum(
            ItemEnumView {
                variants: Seq::new(
                    e.variants.len(),
                    |v: int|
                        VariantView {
                            fields: rewrite_fields(
                                e.variants[v].fields,
                                context,
                                e.type_params,
                                plan,
                                offset(e.variants, v),
                            ),
                        },
                ),
                ..e
            },
        ),
    }
}

/// The functions that a plan generates, in the order of the fields.
pub open spec fn all_functions(
    context: ContextView,
    plan: Seq<Option<BigArrayFieldView>>,
) -> Seq<GeneratedFunctionView>
    decreases plan.len(),
{
    if plan.len() == 0 {
        Seq::empty()
    } else {
        all_functions(context, plan.drop_last()) + functions_for(context, plan.last())
    }
}

/// The functions of two plans, one after the other, are the functions of
/// the two plans joined.
pub proof fn lemma_all_functions_concat(
    context: ContextView,
    first: Seq<Option<BigArrayFieldView>>,
    second: Seq<Option<BigArrayFieldView>>,
)
    ensures
        all_functions(context, first + second) == all_functions(context, first) + all_functions(
            context,
            second,
        ),
    decreases second.len(),
{
    if second.len() == 0 {
        assert(first + second =~= first);
        assert(all_functions(context, first) + Seq::empty() =~= all_functions(context, first));
    } else {
        assert((first + second).drop_last() =~= first + second.drop_last());
        lemma_all_functions_concat(context, first, second.drop_last());
        assert((all_functions(context, first) + all_functions(context, second.drop_last()))
            + functions_for(context, second.last()) =~= all_functions(context, first) + (
        all_functions(context, second.drop_last()) + functions_for(context, second.last())));
    }
}

/// The variants up to any position hold no more fields than all variants.
pub proof fn lemma_offset_bounded(variants: Seq<VariantView>, v: int)
    requires
        0 <= v <= variants.len(),
    ensures
        offset(variants, v) <= flatten(variants).len(),
        v < variants.len() ==> offset(variants, v + 1) == offset(variants, v)
            + variants[v].fields.len(),
    decreases variants.len() - v,
{
    if v == variants.len() {
        assert(variants.take(v) =~= variants);
    } else {
        assert(variants.take(v + 1).drop_last() =~= variants.take(v));
        lemma_offset_bounded(variants, v + 1);
    }
}

fn rewrite_field_list(
    fields: &mut Vec<Field>,
    plan: &Vec<Option<BigArrayField>>,
    start: usize,
    context: &Context,
    type_params: &Vec<String>,
    functions: &mut Vec<GeneratedFunction>,
)
    requires
        start + old(fields)@.len() <= plan@.len(),
    ensures
        views(final(fields)@) == rewrite_fields(
            views(old(fields)@),
            context@,
            views(type_params@),
            plan_view(plan@),
            start as int,
        ),
        views(final(functions)@) == views(old(functions)@) + all_functions(
            context@,
            plan_view(plan@).subrange(start as int, start + old(fields)@.len()),
        ),
{
    let ghost original = views(fields@);
    let ghost earlier = views(functions@);
    let ghost planned = plan_view(plan@);
    let ghost params = views(type_params@);
    let n = fields.len();
    let total = plan.len();
    let mut i: usize = 0;
    proof {
        assert(planned.subrange(start as int, start as int) =~= Seq::empty());
        assert(earlier + Seq::<GeneratedFunctionView>::empty() =~= earlier);
    }
    while i < n
        invariant
            i <= n,
            n == fields@.len(),
            n == original.len(),
            start + n <= plan@.len(),
            total == plan@.len(),
            planned == plan_view(plan@),
            params == views(type_params@),
            forall|k: int|
                0 <= k < i ==> (#[trigger] fields@[k])@ == rewritten(
                    original[k],
                    context@,
                    params,
                    planned[start + k],
                ),
            forall|k: int| i <= k < n ==> (#[trigger] fields@[k])@ == original[k],
            views(functions@) == earlier + all_functions(
                context@,
                planned.subrange(start as int, start + i),
            ),
        decreases n - i,
    {
        let ghost held = views(functions@);
        let ghost hooks = views(fields@[i as int].hooks@);
        strip_directives(&mut fields[i].attrs);
        match &plan[start + i] {
            Some(big) => {
                attach(&mut fields[i], big, context, type_params, functions);
            },
            None => {
                assert(views(fields@[i as int].hooks@) + Seq::empty() =~= hooks);
                assert(held + Seq::<GeneratedFunctionView>::empty() =~= held);
            },
        }
        proof {
            let upto = planned.subrange(start as int, start + i + 1);
            assert(upto.drop_last() =~= planned.subrange(start as int, start + i));
            assert(upto.last() == planned[start + i]);
            assert(planned[start + i] == option_view(plan@[start + i]));
            assert(views(functions@) =~= earlier + all_functions(context@, upto));
        }
        i += 1;
    }
    assert(views(fields@) =~= rewrite_fields(original, context@, params, planned, start as int));
}

impl Item {
    /// Rewrites the definition by `plan`, and returns the functions that
    /// the plan generates.
    pub fn rewrite(&mut self, plan: &Vec<Option<BigArrayField>>, context: &Context) -> (functions:
        Vec<GeneratedFunction>)
        requires
            plan@.len() == old(self)@.fields().len(),
        ensures
            final(self)@ == rewrite_item(old(self)@, context@, plan_view(plan@)),
            views(functions@) == all_functions(context@, plan_view(plan@)),
    {
        let mut functions: Vec<GeneratedFunction> = Vec::new();
        let ghost planned = plan_view(plan@);
        match self {
            Item::Struct(s) => {
                rewrite_field_list(&mut s.fields, plan, 0, context, &s.type_params, &mut functions);
                proof {
                    assert(planned.subrange(0, plan@.len() as int) =~= planned);
                    assert(Seq::<GeneratedFunctionView>::empty() + all_functions(
                        context@,
                        planned,
                    ) =~= all_functions(context@, planned));
                }
            },
            Item::Enum(e) => {
                let ghost original = views(e.variants@);
                let ghost params = views(e.type_params@);
                let n = e.variants.len();
                let total = plan.len();
                let mut v: usize = 0;
                let mut start: usize = 0;
                proof {
                    assert(original.take(0) =~= Seq::empty());
                    assert(planned.take(0) =~= Seq::empty());
                }
                while v < n
                    invariant
                        v <= n,
                        n == e.variants@.len(),
                        n == original.len(),
                        planned == plan_view(plan@),
                        plan@.len() == flatten(original).len(),
                        total == plan@.len(),
                        e.attrs == old(self)->Enum_0.attrs,
                        e.ident == old(self)->Enum_0.ident,
                        e.type_params == old(self)->Enum_0.type_params,
                        params == views(e.type_params@),
                        original == views(old(self)->Enum_0.variants@),
                        start == offset(original, v as int),
                        forall|k: int|
                            0 <= k < v ==> (#[trigger] e.variants@[k])@ == (VariantView {
                                fields: rewrite_fields(
                                    original[k].fields,
                                    context@,
                                    params,
                                    planned,
                                    offset(original, k),
                                ),
                            }),
                        forall|k: int| v <= k < n ==> (#[trigger] e.variants@[k])@ == original[k],
                        views(functions@) == all_functions(context@, planned.take(start as int)),
                    decreases n - v,
                {
                    proof {
                        lemma_offset_bounded(original, v as int);
                        lemma_offset_bounded(original, v + 1);
                    }
                    let count = e.variants[v].fields.len();
                    assert(count == original[v as int].fields.len());
                    rewrite_field_list(
                        &mut e.variants[v].fields,
                        plan,
                        start,
                        context,
                        &e.type_params,
                        &mut functions,
                    );
                    proof {
                        let part = planned.subrange(start as int, start + count);
                        assert(planned.take(start + count) =~= planned.take(start as int) + part);
                        lemma_all_functions_concat(context@, planned.take(start as int), part);
                    }
                    start = start + count;
                    v += 1;
                }
                proof {
                    lemma_offset_bounded(original, n as int);
                    assert(original.take(n as int) =~= original);
                    assert(planned.take(start as int) =~= planned);
                    assert(views(e.variants@) =~= Seq::new(
                        original.len(),
                        |k: int|
                            VariantView {
                                fields: rewrite_fields(
                                    original[k].fields,
                                    context@,
                                    params,
                                    planned,
                                    offset(original, k),
                                ),
                            },
                    ));
                }
            },
        }
        functions
    }
}

} // verus!
