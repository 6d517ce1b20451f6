//! The two passes run over the labels that live in an entity world.

use crate::label::{
    draw_spec, item_views, label_views, population_spec, DrawCommand, DrawError, Label, LabelItem,
    LabelItemView, LabelView, PopulationOutcome,
};
use crate::registry::{FontAtlasSetView, FontAtlasSets, FontStore};
use legion::prelude::{IntoQuery, Read, World, Write};
use vstd::prelude::*;

verus! {

/// legion's `World`, carried through the passes as an opaque value.
#[verifier::external_type_specification]
#[verifier::external_body]
pub struct ExWorld(legion::world::World);

/// The quads that the draw pass has emitted for one entity.
#[derive(Debug)]
pub struct Draw {
    pub commands: Vec<DrawCommand>,
}

/// The labels of the entities of a world that have one, in the order in
/// which a query walks them.
pub uninterp spec fn labels_in(world: World) -> Seq<LabelView>;

/// Label, node and transform of the entities of a world that have all
/// three and a `Draw`, in the order in which a query walks them.
pub uninterp spec fn label_items_in(world: World) -> Seq<LabelItemView>;

/// The quads in the `Draw` of each entity that `label_items_in` lists, in
/// the same order.
pub uninterp spec fn draws_in(world: World) -> Seq<Seq<DrawCommand>>;

/// Runs legion's `Query::iter` for `Read<Label>` on the world and copies
/// each label out. The contract only names what comes out: the labels of
/// the world, in query order.
#[verifier::external_body]
fn read_labels(world: &World) -> (labels: Vec<Label>)
    ensures
        label_views(labels@) == labels_in(*world),
{
    <Read<Label>>::query().iter(world).map(|l| (*l).clone()).collect()
}

/// Runs legion's `Query::iter` for `Draw`, `Label`, `Node` and `Transform`
/// on the world and copies label, node and transform of each entity out.
/// The contract only names what comes out.
#[verifier::external_body]
fn read_label_items(world: &World) -> (items: Vec<LabelItem>)
    ensures
        item_views(items@) == label_items_in(*world),
        items@.len() == draws_in(*world).len(),
{
    <(Read<Draw>, Read<Label>, Read<crate::label::Node>, Read<crate::label::Transform>)>::query()
        .iter(world).map(
        |(_, l, n, t)| LabelItem { label: (*l).clone(), node: *n, transform: *t },
    ).collect()
}

/// Runs legion's `Query::iter_mut` for the same four components and
/// appends to the `Draw` of the k-th entity the k-th list of quads. The
/// contract says that labels, nodes and transforms stay as they were and
/// that each `Draw` grows by its list.
#[verifier::external_body]
fn append_draws(world: &mut World, lists: &Vec<Vec<DrawCommand>>)
    requires
        lists@.len() == draws_in(*old(world)).len(),
    ensures
        labels_in(*final(world)) == labels_in(*old(world)),
        label_items_in(*final(world)) == label_items_in(*old(world)),
        draws_in(*final(world)).len() == draws_in(*old(world)).len(),
        forall|k: int|
            0 <= k < lists@.len() ==> #[trigger] draws_in(*final(world))[k] == draws_in(
                *old(world),
            )[k] + lists@[k]@,
{
    let query =
        <(Write<Draw>, Read<Label>, Read<crate::label::Node>, Read<crate::label::Transform>)>::query();
    for ((mut draw, _, _, _), list) in query.iter_mut(world).zip(lists.iter()) {
        draw.commands.extend(list.iter().copied());
    }
}

/// What drawing each label item gives: one list of quads per item, or the
/// error of the first item that cannot be drawn.
pub open spec fn draw_each_spec(sets: Seq<FontAtlasSetView>, items: Seq<LabelItemView>) -> Result<
    Seq<Seq<DrawCommand>>,
    DrawError,
>
    decreases items.len(),
{
    if items.len() == 0 {
        Ok(Seq::empty())
    } else {
        match draw_each_spec(sets, items.drop_last()) {
            Err(e) => Err(e),
            Ok(before) => match draw_spec(sets, items.last()) {
                Err(e) => Err(e),
                Ok(commands) => Ok(before.push(commands)),
            },
        }
    }
}

/// Once drawing has failed on a prefix of the items, it fails on all.
pub proof fn lemma_draw_each_error_sticks(
    sets: Seq<FontAtlasSetView>,
    items: Seq<LabelItemView>,
    n: int,
)
    requires
        0 <= n <= items.len(),
        draw_each_spec(sets, items.take(n)) is Err,
    ensures
        draw_each_spec(sets, items) == draw_each_spec(sets, items.take(n)),
    decreases items.len() - n,
{
    if n < items.len() {
        assert(items.take(n + 1).drop_last() =~= items.take(n));
        lemma_draw_each_error_sticks(sets, items, n + 1);
    } else {
        assert(items.take(n) =~= items);
    }
}

/// Drawing each item gives as many lists as there are items.
pub proof fn lemma_draw_each_len(sets: Seq<FontAtlasSetView>, items: Seq<LabelItemView>)
    ensures
        draw_each_spec(sets, items) matches Ok(lists) ==> lists.len() == items.len(),
    decreases items.len(),
{
    if items.len() > 0 {
        lemma_draw_each_len(sets, items.drop_last());
    }
}

/// The quads of each item of a list, or the error of the first item that
/// cannot be drawn.
pub fn draw_each(font_atlas_sets: &FontAtlasSets, items: &Vec<LabelItem>) -> (res: Result<
    Vec<Vec<DrawCommand>>,
    DrawError,
>)
    requires
        font_atlas_sets.wf(),
    ensures
        match draw_each_spec(font_atlas_sets@, item_views(items@)) {
            Ok(lists) => res matches Ok(out) && out@.len() == lists.len() && forall|k: int|
                0 <= k < lists.len() ==> (#[trigger] out@[k])@ == lists[k],
            Err(e) => res matches Err(got) && got == e,
        },
{
    let ghost views = item_views(items@);
    let mut out: Vec<Vec<DrawCommand>> = Vec::new();
    let mut i: usize = 0;
    while i < items.len()
        invariant
            i <= items.len(),
            font_atlas_sets.wf(),
            views == item_views(items@),
            out.len() == i,
            draw_each_spec(font_atlas_sets@, views.take(i as int)) matches Ok(lists) && lists.len()
                == i && forall|k: int| 0 <= k < i ==> (#[trigger] out@[k])@ == lists[k],
        decreases items.len() - i,
    {
        let item = &items[i];
        proof {
            assert(views.take(i + 1).drop_last() =~= views.take(i as int));
            assert(views.take(i + 1).last() == item@);
        }
        match item.label.draw(font_atlas_sets, item.node, item.transform) {
            Ok(commands) => {
                out.push(commands);
            },
            Err(e) => {
                proof {
                    lemma_draw_each_error_sticks(font_atlas_sets@, views, i + 1);
                }
                return Err(e);
            },
        }
        i += 1;
    }
    assert(views.take(i as int) =~= views);
    Ok(out)
}

/// The glyph population pass over the labels of a world: `label_system`
/// on the labels that the world holds, in query order.
pub fn populate_world(fonts: &FontStore, font_atlas_sets: &mut FontAtlasSets, world: &World) -> (outcomes:
    Vec<PopulationOutcome>)
    requires
        fonts.wf(),
        old(font_atlas_sets).wf(),
    ensures
        final(font_atlas_sets).wf(),
        (final(font_atlas_sets)@, outcomes@) == population_spec(
            old(font_atlas_sets)@,
            fonts@,
            labels_in(*world),
        ),
{
    let labels = read_labels(world);
    Label::label_system(fonts, font_atlas_sets, &labels)
}

/// The draw pass over the entities of a world: the quads of each entity's
/// label are appended to the entity's `Draw`. If any label cannot be drawn
/// the pass answers with the error of the first such label and leaves the
/// world as it was.
pub fn draw_world(font_atlas_sets: &FontAtlasSets, world: &mut World) -> (res: Result<
    (),
    DrawError,
>)
    requires
        font_atlas_sets.wf(),
    ensures
        label_items_in(*final(world)) == label_items_in(*old(world)),
        labels_in(*final(world)) == labels_in(*old(world)),
        draws_in(*final(world)).len() == draws_in(*old(world)).len(),
        match draw_each_spec(font_atlas_sets@, label_items_in(*old(world))) {
            Ok(lists) => res is Ok && forall|k: int|
                0 <= k < lists.len() ==> #[trigger] draws_in(*final(world))[k] == draws_in(
                    *old(world),
                )[k] + lists[k],
            Err(e) => res == Err::<(), DrawError>(e) && draws_in(*final(world)) == draws_in(
                *old(world),
            ),
        },
{
    let items = read_label_items(world);
    proof {
        lemma_draw_each_len(font_atlas_sets@, item_views(items@));
    }
    match draw_each(font_atlas_sets, &items) {
        Ok(lists) => {
            append_draws(world, &lists);
            Ok(())
        },
        Err(e) => Err(e),
    }
}

} // verus!
