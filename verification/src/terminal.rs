//! The terminal: the root of the panel tree, and the list of what is to
//! be drawn for a frame.

use vstd::prelude::*;
use crate::error::{OozeError, OozeResult};
use crate::geometry::{Dimensions, Point};
use crate::glyph::{Glyph, GlyphModel, glyph_models};
use crate::layers::{arrange, in_layer_order, lemma_in_layer_order, origin};
use crate::panel::{Panel, PanelModel, panel_models};
use crate::sprite::{Sprite, SpriteMap};

verus! {

/// The root object representing what is drawn to the screen.
pub struct Terminal {
    pub dims: Dimensions,
    pub root_panel: Panel,
}

/// A terminal as a value.
pub struct TerminalModel {
    pub dims: Dimensions,
    pub root_panel: PanelModel,
}

impl View for Terminal {
    type V = TerminalModel;

    open spec fn view(&self) -> TerminalModel {
        TerminalModel { dims: self.dims, root_panel: self.root_panel@ }
    }
}

/// One glyph to draw: the glyph, the cell of the terminal in which it is
/// drawn, and the layer of its panel.
pub type Drawable = (GlyphModel, Point, usize);

/// A glyph is drawn unless it is fully transparent.
pub open spec fn visible() -> spec_fn(GlyphModel) -> bool {
    |glyph: GlyphModel| !glyph.fully_transparent()
}

/// A glyph of `panel` as it is drawn: in the cell that its own location
/// names, counted from where the offset of the panel is counted from, and
/// on the layer of the panel.
pub open spec fn drawn_in(panel: PanelModel) -> spec_fn(GlyphModel) -> Drawable {
    |glyph: GlyphModel| (glyph, glyph.location.spec_plus(panel.dims.offset), panel.layer)
}

/// What one panel gives to the frame: nothing where it is hidden, else
/// its visible glyphs in the order of `PanelModel::glyphs`. Whether the
/// panels around it are hidden makes no difference.
pub open spec fn drawables_of(panel: PanelModel) -> Seq<Drawable> {
    if panel.hidden {
        Seq::empty()
    } else {
        panel.glyphs().filter(visible()).map_values(drawn_in(panel))
    }
}

/// What the panels give to the frame, panel after panel.
pub open spec fn drawables(panels: Seq<PanelModel>) -> Seq<Drawable> {
    panels.map_values(|panel: PanelModel| drawables_of(panel)).flatten()
}

/// The layer of each item.
pub open spec fn layers_of(items: Seq<Drawable>) -> Seq<usize> {
    items.map_values(|item: Drawable| item.2)
}

/// What the items behind the references hold, one for one.
pub open spec fn draw_models(items: Seq<(&Glyph, Point, usize)>) -> Seq<Drawable> {
    items.map_values(|item: (&Glyph, Point, usize)| (item.0@, item.1, item.2))
}

/// One call of the renderer: the glyph to draw, the sprite that its id
/// names, and the cell of the terminal at which it is drawn.
pub struct DrawCall<'a> {
    pub glyph: &'a Glyph,
    pub sprite: Sprite,
    pub point: Point,
}

impl TerminalModel {
    /// Everything that the panels of the tree give to the frame, in the
    /// order in which the tree is walked: not yet in drawing order.
    pub open spec fn collected(self) -> Seq<Drawable> {
        drawables(self.root_panel.flatten())
    }

    /// Whether every glyph of the frame has its sprite in `sprites`.
    pub open spec fn resolves(self, sprites: Map<Seq<char>, Sprite>) -> bool {
        forall|k: int|
            0 <= k < self.draw_list().len() ==> sprites.contains_key(
                (#[trigger] self.draw_list()[k]).0.sprite_id,
            )
    }

    /// The frame: what was collected, in drawing order. The layer alone
    /// decides; within one layer the items keep the order in which they
    /// were collected.
    pub open spec fn draw_list(self) -> Seq<Drawable> {
        in_layer_order(self.collected(), layers_of(self.collected()))
    }
}

/// Whether glyph `g` of `panel` is drawn, and as `item`: the panel is not
/// hidden and the glyph is visible.
pub open spec fn gives(panel: PanelModel, g: int, item: Drawable) -> bool {
    &&& !panel.hidden
    &&& !panel.glyphs()[g].fully_transparent()
    &&& item == drawn_in(panel)(panel.glyphs()[g])
}

/// What a panel gives to the frame are its visible glyphs, unless it is
/// hidden: then it gives nothing.
pub proof fn lemma_drawables_of(panel: PanelModel, item: Drawable)
    ensures
        panel.hidden ==> drawables_of(panel) == Seq::<Drawable>::empty(),
        drawables_of(panel).contains(item) <==> exists|g: int|
            0 <= g < panel.glyphs().len() && #[trigger] gives(panel, g, item),
{
    let glyphs = panel.glyphs();
    let kept = glyphs.filter(visible());
    if !panel.hidden {
        if drawables_of(panel).contains(item) {
            let k = choose|k: int| 0 <= k < kept.len() && drawables_of(panel)[k] == item;
            glyphs.lemma_filter_pred(visible(), k);
            assert(kept.contains(kept[k]));
            glyphs.lemma_filter_contains_rev(visible(), kept[k]);
            assert(glyphs.contains(kept[k]));
            let g = choose|g: int| 0 <= g < glyphs.len() && glyphs[g] == kept[k];
            assert(gives(panel, g, item));
        }
        if exists|g: int| 0 <= g < glyphs.len() && #[trigger] gives(panel, g, item) {
            let g = choose|g: int| 0 <= g < glyphs.len() && #[trigger] gives(panel, g, item);
            assert(visible()(glyphs[g]));
            glyphs.lemma_filter_contains(visible(), g);
            assert(kept.contains(glyphs[g]));
            let k = choose|k: int| 0 <= k < kept.len() && kept[k] == glyphs[g];
            assert(drawables_of(panel)[k] == item);
        }
    } else {
        assert(!drawables_of(panel).contains(item)) by {
            if drawables_of(panel).contains(item) {
                let k = choose|k: int|
                    0 <= k < drawables_of(panel).len() && drawables_of(panel)[k] == item;
            }
        }
    }
}

/// An item is collected exactly when a panel that is not hidden holds a
/// visible glyph that is drawn as that item. So a hidden panel keeps its
/// own glyphs out of the frame, and no others: the panels below it give
/// what they give.
pub proof fn lemma_collected(panels: Seq<PanelModel>, item: Drawable)
    ensures
        drawables(panels).contains(item) <==> exists|p: int, g: int|
            0 <= p < panels.len() && 0 <= g < panels[p].glyphs().len() && #[trigger] gives(
                panels[p],
                g,
                item,
            ),
    decreases panels.len(),
{
    let parts = panels.map_values(|panel: PanelModel| drawables_of(panel));
    if panels.len() == 0 {
        assert(parts.flatten() =~= Seq::<Drawable>::empty());
    } else {
        let front = panels.drop_last();
        let last = panels.last();
        let front_parts = front.map_values(|panel: PanelModel| drawables_of(panel));
        assert(parts =~= front_parts.push(drawables_of(last)));
        front_parts.lemma_flatten_push(drawables_of(last));
        assert(drawables(panels) == drawables(front) + drawables_of(last));
        lemma_collected(front, item);
        lemma_drawables_of(last, item);
        if drawables(panels).contains(item) {
            let k = choose|k: int| 0 <= k < drawables(panels).len() && drawables(panels)[k] == item;
            if k < drawables(front).len() {
                assert(drawables(front)[k] == item);
                let (p, g) = choose|p: int, g: int|
                    0 <= p < front.len() && 0 <= g < front[p].glyphs().len() && #[trigger] gives(
                        front[p],
                        g,
                        item,
                    );
                assert(front[p] == panels[p]);
                assert(gives(panels[p], g, item));
            } else {
                assert(drawables_of(last)[k - drawables(front).len()] == item);
                let g = choose|g: int| 0 <= g < last.glyphs().len() && #[trigger] gives(last, g, item);
                assert(gives(panels[panels.len() - 1], g, item));
            }
        }
        if exists|p: int, g: int|
            0 <= p < panels.len() && 0 <= g < panels[p].glyphs().len() && #[trigger] gives(
                panels[p],
                g,
                item,
            ) {
            let (p, g) = choose|p: int, g: int|
                0 <= p < panels.len() && 0 <= g < panels[p].glyphs().len() && #[trigger] gives(
                    panels[p],
                    g,
                    item,
                );
            if p < front.len() {
                assert(front[p] == panels[p]);
                assert(gives(front[p], g, item));
                assert(drawables(front).contains(item));
                let k = choose|k: int| 0 <= k < drawables(front).len() && drawables(front)[k] == item;
                assert(drawables(panels)[k] == item);
            } else {
                assert(gives(last, g, item));
                assert(drawables_of(last).contains(item));
                let k = choose|k: int|
                    0 <= k < drawables_of(last).len() && drawables_of(last)[k] == item;
                assert(drawables(panels)[drawables(front).len() + k] == item);
            }
        }
    }
}

/// The frame holds what was collected, no more and no less, and along it
/// the layers never fall.
pub proof fn lemma_draw_list(terminal: TerminalModel)
    ensures
        terminal.draw_list().len() == terminal.collected().len(),
        forall|item: Drawable|
            terminal.draw_list().contains(item) <==> terminal.collected().contains(item),
        forall|a: int, b: int|
            0 <= a <= b < terminal.draw_list().len() ==> (#[trigger] terminal.draw_list()[a]).2
                <= (#[trigger] terminal.draw_list()[b]).2,
{
    let collected = terminal.collected();
    let layers = layers_of(collected);
    lemma_in_layer_order(collected, layers);
    assert forall|a: int, b: int| 0 <= a <= b < terminal.draw_list().len() implies (
    #[trigger] terminal.draw_list()[a]).2 <= (#[trigger] terminal.draw_list()[b]).2 by {
        assert(layers[origin(layers, a)] <= layers[origin(layers, b)]);
    }
}

impl Terminal {
    /// The panels of the terminal are well-formed.
    pub open spec fn wf(&self) -> bool {
        self.root_panel.wf()
    }

    /// Tests whether the panels of the terminal are well-formed.
    pub fn is_well_formed(&self) -> (ok: bool)
        ensures
            ok == self.wf(),
    {
        self.root_panel.is_well_formed()
    }

    /// Creates a new Terminal with the given Dimensions, which are those
    /// of its root panel too. Dimensions without area are out of bounds.
    pub fn new(dims: Dimensions) -> (result: OozeResult<Terminal>)
        ensures
            result is Ok <==> dims.term_size.x > 0 && dims.term_size.y > 0,
            result matches Ok(terminal) ==> terminal@ == (TerminalModel {
                dims,
                root_panel: PanelModel::blank(dims),
            }) && terminal.wf(),
            result matches Err(err) ==> err is OutOfBoundsError,
    {
        match Panel::new(dims) {
            Ok(root_panel) => Ok(Terminal { dims, root_panel }),
            Err(err) => Err(err),
        }
    }

    /// Collects a Vector of (Glyph, final_point, layer) from each panel of
    /// the tree that is not hidden, in drawing order.
    pub fn collect_drawable_glyphs(&self) -> (result: Vec<(&Glyph, Point, usize)>)
        ensures
            draw_models(result@) == self@.draw_list(),
            forall|a: int, b: int|
                0 <= a <= b < result@.len() ==> (#[trigger] result@[a]).2 <= (#[trigger] result@[b]).2,
    {
        let panels = self.root_panel.all_sub_panels();
        let ghost models = panel_models(panels@);
        let ghost parts = models.map_values(|panel: PanelModel| drawables_of(panel));
        let mut found: Vec<(&Glyph, Point, usize)> = Vec::new();
        let mut layers: Vec<usize> = Vec::new();
        let mut i: usize = 0;
        proof {
            assert(parts.take(0).flatten() =~= Seq::<Drawable>::empty());
            assert(draw_models(found@) =~= Seq::<Drawable>::empty());
            assert(layers@ =~= layers_of(draw_models(found@)));
        }
        while i < panels.len()
            invariant
                i <= panels@.len(),
                models == panel_models(panels@),
                parts == models.map_values(|panel: PanelModel| drawables_of(panel)),
                draw_models(found@) == parts.take(i as int).flatten(),
                layers@ == layers_of(draw_models(found@)),
            decreases panels@.len() - i,
        {
            let panel: &Panel = panels[i];
            let ghost before = found@;
            let ghost model = panel@;
            proof {
                panel.lemma_view();
                assert(model == models[i as int]);
                assert(parts.take(i + 1) =~= parts.take(i as int).push(parts[i as int]));
                parts.take(i as int).lemma_flatten_push(parts[i as int]);
                assert(parts[i as int] == drawables_of(model));
            }
            if !panel.hidden {
                let glyphs = panel.glyphs();
                let ghost cells = model.glyphs();
                let mut j: usize = 0;
                proof {
                    reveal(Seq::filter);
                    assert(cells.take(0).filter(visible()) =~= Seq::<GlyphModel>::empty());
                    assert(draw_models(found@) =~= draw_models(before) + cells.take(0).filter(
                        visible(),
                    ).map_values(drawn_in(model)));
                }
                while j < glyphs.len()
                    invariant
                        j <= glyphs@.len(),
                        model == panel@,
                        model.dims == panel.dims,
                        model.layer == panel.layer,
                        cells == glyph_models(glyphs@),
                        draw_models(found@) == draw_models(before) + cells.take(j as int).filter(
                            visible(),
                        ).map_values(drawn_in(model)),
                        layers@ == layers_of(draw_models(found@)),
                    decreases glyphs@.len() - j,
                {
                    let glyph: &Glyph = glyphs[j];
                    let ghost so_far = found@;
                    let ghost layers_so_far = layers@;
                    proof {
                        reveal(Seq::filter);
                        assert(cells.take(j + 1).drop_last() =~= cells.take(j as int));
                        assert(cells.take(j + 1).last() == glyph@);
                    }
                    if !glyph.fully_transparent() {
                        found.push((glyph, glyph.location.plus(panel.dims.offset), panel.layer));
                        layers.push(panel.layer);
                        proof {
                            let item = drawn_in(model)(glyph@);
                            assert(draw_models(found@) =~= draw_models(so_far).push(item));
                            assert(cells.take(j + 1).filter(visible()) == cells.take(
                                j as int,
                            ).filter(visible()).push(glyph@));
                            assert(cells.take(j + 1).filter(visible()).map_values(drawn_in(model))
                                =~= cells.take(j as int).filter(visible()).map_values(
                                drawn_in(model),
                            ).push(item));
                            assert(draw_models(found@) =~= draw_models(before) + cells.take(
                                j + 1,
                            ).filter(visible()).map_values(drawn_in(model)));
                            assert(layers@ =~= layers_of(draw_models(found@)));
                        }
                    } else {
                        proof {
                            assert(cells.take(j + 1).filter(visible()) == cells.take(
                                j as int,
                            ).filter(visible()));
                        }
                    }
                    j = j + 1;
                }
                proof {
                    assert(cells.take(j as int) =~= cells);
                }
            } else {
                proof {
                    assert(draw_models(found@) =~= draw_models(before) + drawables_of(model));
                }
            }
            i = i + 1;
        }
        proof {
            assert(parts.take(i as int) =~= parts);
        }
        let result = arrange(&found, &layers);
        proof {
            let collected = draw_models(found@);
            let wanted = self@.draw_list();
            assert(self@.collected() == collected);
            lemma_in_layer_order(collected, layers@);
            lemma_in_layer_order(found@, layers@);
            assert(draw_models(result@) =~= wanted);
            assert forall|b: int, c: int| 0 <= b <= c < result@.len() implies (#[trigger] result@[b]).2
                <= (#[trigger] result@[c]).2 by {
                assert(wanted[b].2 == layers@[origin(layers@, b)]);
                assert(wanted[c].2 == layers@[origin(layers@, c)]);
            }
        }
        result
    }

    /// The calls that draw this terminal, in the order in which they are
    /// to be made: one for each glyph of the frame, with the sprite that
    /// its id names in `sprites`. Where one glyph names a sprite that
    /// `sprites` does not hold there is no frame to draw, and no call is
    /// given.
    pub fn draw<'a>(&'a self, sprites: &SpriteMap) -> (result: OozeResult<Vec<DrawCall<'a>>>)
        ensures
            result is Ok <==> self@.resolves(sprites@),
            result matches Ok(calls) ==> calls@.len() == self@.draw_list().len() && forall|k: int|
                0 <= k < calls@.len() ==> (#[trigger] calls@[k]).glyph@ == self@.draw_list()[k].0
                    && calls@[k].point == self@.draw_list()[k].1 && calls@[k].sprite
                    == sprites@[self@.draw_list()[k].0.sprite_id],
            result matches Err(err) ==> err is GenericError,
    {
        let glyph_tuples = self.collect_drawable_glyphs();
        let ghost list = self@.draw_list();
        let mut calls: Vec<DrawCall<'a>> = Vec::new();
        let mut k: usize = 0;
        while k < glyph_tuples.len()
            invariant
                k <= glyph_tuples@.len(),
                list == draw_models(glyph_tuples@),
                list == self@.draw_list(),
                calls@.len() == k,
                forall|j: int| 0 <= j < k ==> sprites@.contains_key((#[trigger] list[j]).0.sprite_id),
                forall|j: int|
                    0 <= j < k ==> (#[trigger] calls@[j]).glyph@ == list[j].0 && calls@[j].point
                        == list[j].1 && calls@[j].sprite == sprites@[list[j].0.sprite_id],
            decreases glyph_tuples@.len() - k,
        {
            let (glyph, point, _layer) = glyph_tuples[k];
            assert(list[k as int] == (glyph@, point, _layer));
            match sprites.get(glyph.sprite_id.as_str()) {
                Ok(sprite) => {
                    calls.push(DrawCall { glyph, sprite: *sprite, point });
                },
                Err(err) => {
                    assert(!sprites@.contains_key(list[k as int].0.sprite_id));
                    return Err(err);
                },
            }
            k = k + 1;
        }
        Ok(calls)
    }
}

} // verus!
