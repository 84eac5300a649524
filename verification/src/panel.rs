//! Panels: rectangular grids of glyphs that own their sub-panels.

use vstd::prelude::*;
use crate::color::{ONE, channels_in_range, color_in_range};
use crate::error::{OozeError, OozeResult};
use crate::geometry::{Dimensions, Point, Rect};
use crate::glyph::{Glyph, GlyphModel, glyph_models};

verus! {

/// A sort of "sub terminal" that contains glyphs for drawing to the
/// screen. Can contain sub-panels.
///
/// `contents` is a dense grid of `dims.term_size.x` columns, each of
/// `dims.term_size.y` glyphs: the glyph of the cell `(x, y)` is
/// `contents[x][y]`.
pub struct Panel {
    pub dims: Dimensions,
    pub layer: usize,
    pub hidden: bool,
    pub contents: Vec<Vec<Glyph>>,
    pub sub_panels: Vec<Panel>,
}

/// A panel as a value: its grid as a sequence of columns, and its
/// sub-panels in the order in which they were added.
pub struct PanelModel {
    pub dims: Dimensions,
    pub layer: usize,
    pub hidden: bool,
    pub contents: Seq<Seq<GlyphModel>>,
    pub sub_panels: Seq<PanelModel>,
}

/// The layer above `layer`; the topmost layer is its own successor.
pub open spec fn layer_above(layer: usize) -> usize {
    if layer < usize::MAX {
        (layer + 1) as usize
    } else {
        layer
    }
}

impl PanelModel {
    /// The local rectangle of the panel: its size, with the bottom-left
    /// at the origin.
    pub open spec fn rect(self) -> Rect {
        Rect::spec_of_size(self.dims.term_size)
    }

    /// The grid has area and is dense, here and in every panel below.
    pub open spec fn well_formed(self) -> bool
        decreases self,
    {
        &&& self.dims.term_size.x > 0
        &&& self.dims.term_size.y > 0
        &&& self.contents.len() == self.dims.term_size.x
        &&& forall|x: int|
            0 <= x < self.contents.len() ==> (#[trigger] self.contents[x]).len()
                == self.dims.term_size.y
        &&& forall|i: int|
            0 <= i < self.sub_panels.len() ==> (#[trigger] self.sub_panels[i]).well_formed()
    }

    /// The glyph of the cell at `point`.
    pub open spec fn cell(self, point: Point) -> GlyphModel {
        self.contents[point.x as int][point.y as int]
    }

    /// This panel with `glyph` in the cell at `point`.
    pub open spec fn with_cell(self, point: Point, glyph: GlyphModel) -> PanelModel {
        PanelModel {
            contents: self.contents.update(
                point.x as int,
                self.contents[point.x as int].update(point.y as int, glyph),
            ),
            ..self
        }
    }

    /// The glyphs of the panel, column by column from the left, each
    /// column bottom to top.
    pub open spec fn glyphs(self) -> Seq<GlyphModel> {
        self.contents.flatten()
    }

    /// A new panel of the given dimensions: every cell holds the blank
    /// glyph of its own place.
    pub open spec fn blank(dims: Dimensions) -> PanelModel {
        PanelModel {
            dims,
            layer: 0,
            hidden: false,
            contents: Seq::new(
                dims.term_size.x as nat,
                |x: int|
                    Seq::new(
                        dims.term_size.y as nat,
                        |y: int| GlyphModel::blank(Point { x: x as u32, y: y as u32 }),
                    ),
            ),
            sub_panels: Seq::empty(),
        }
    }

    /// Whether a panel of the dimensions `dims` may become a sub-panel:
    /// its rectangle, at the offset that `dims` names, has area and lies
    /// inside the local rectangle of this panel.
    pub open spec fn accepts(self, dims: Dimensions) -> bool {
        self.rect().spec_contains_rect(dims.spec_rect())
    }

    /// `child` as it stands once it is a sub-panel of this panel: its
    /// offset is counted from where this panel's offset is counted from,
    /// and it lies one layer above.
    pub open spec fn adopted(self, child: PanelModel) -> PanelModel {
        PanelModel {
            dims: Dimensions {
                offset: child.dims.offset.spec_plus(self.dims.offset),
                ..child.dims
            },
            layer: layer_above(self.layer),
            ..child
        }
    }

    /// This panel with `child` as its last sub-panel.
    pub open spec fn attach(self, child: PanelModel) -> PanelModel {
        PanelModel { sub_panels: self.sub_panels.push(self.adopted(child)), ..self }
    }

    /// The glyph that `place` makes for the cell at `point`.
    pub open spec fn stamp(
        point: Point,
        id: Seq<char>,
        fg_color: [u32; 4],
        bg_color: [u32; 4],
    ) -> GlyphModel {
        GlyphModel { location: point, fg_color, bg_color, sprite_id: id }
    }

    /// What `place` does: the colours are tested first, foreground before
    /// background, then the point; where all is well the cell at the
    /// point holds the new glyph.
    pub open spec fn placed(
        self,
        point: Point,
        id: Seq<char>,
        fg_color: [u32; 4],
        bg_color: [u32; 4],
    ) -> Result<PanelModel, OozeError> {
        if !channels_in_range(fg_color) {
            Err(OozeError::BadColorError(fg_color))
        } else if !channels_in_range(bg_color) {
            Err(OozeError::BadColorError(bg_color))
        } else if !self.rect().spec_contains_point(point) {
            Err(OozeError::OutOfBoundsError)
        } else {
            Ok(self.with_cell(point, PanelModel::stamp(point, id, fg_color, bg_color)))
        }
    }

    /// Whether the cell at `point` lies on the border of the panel: in
    /// the first or last column, or in the first or last row.
    pub open spec fn on_border(self, point: Point) -> bool {
        point.x == 0 || point.x == self.dims.term_size.x - 1 || point.y == 0 || point.y
            == self.dims.term_size.y - 1
    }

    /// This panel with a new glyph in each of the first `done` cells, in
    /// the order of `Rect::points`; where `border_only` is set, in those
    /// of them that lie on the border. Every other cell is as it was.
    pub open spec fn stamped(
        self,
        done: int,
        border_only: bool,
        id: Seq<char>,
        fg_color: [u32; 4],
        bg_color: [u32; 4],
    ) -> PanelModel {
        PanelModel {
            contents: Seq::new(
                self.contents.len(),
                |x: int|
                    Seq::new(
                        self.contents[x].len(),
                        |y: int|
                            {
                                let point = Point { x: x as u32, y: y as u32 };
                                if self.rect().index_of(point) < done && (!border_only
                                    || self.on_border(point)) {
                                    PanelModel::stamp(point, id, fg_color, bg_color)
                                } else {
                                    self.contents[x][y]
                                }
                            },
                    ),
            ),
            ..self
        }
    }

    /// This panel with a new glyph in every cell.
    pub open spec fn filled(self, id: Seq<char>, fg_color: [u32; 4], bg_color: [u32; 4]) -> PanelModel {
        PanelModel {
            contents: Seq::new(
                self.contents.len(),
                |x: int|
                    Seq::new(
                        self.contents[x].len(),
                        |y: int|
                            PanelModel::stamp(
                                Point { x: x as u32, y: y as u32 },
                                id,
                                fg_color,
                                bg_color,
                            ),
                    ),
            ),
            ..self
        }
    }

    /// This panel with a new glyph in every cell of its border, and the
    /// cells inside as they were.
    pub open spec fn bordered(self, id: Seq<char>, fg_color: [u32; 4], bg_color: [u32; 4]) -> PanelModel {
        PanelModel {
            contents: Seq::new(
                self.contents.len(),
                |x: int|
                    Seq::new(
                        self.contents[x].len(),
                        |y: int|
                            {
                                let point = Point { x: x as u32, y: y as u32 };
                                if self.on_border(point) {
                                    PanelModel::stamp(point, id, fg_color, bg_color)
                                } else {
                                    self.contents[x][y]
                                }
                            },
                    ),
            ),
            ..self
        }
    }

    /// A bulk operation with one pair of colours for all cells fails, if
    /// it fails, at its first cell: with the colour that `place` refuses,
    /// and nothing changed.
    pub open spec fn bulk(
        self,
        fg_color: [u32; 4],
        bg_color: [u32; 4],
        done: PanelModel,
    ) -> Result<PanelModel, OozeError> {
        if !channels_in_range(fg_color) {
            Err(OozeError::BadColorError(fg_color))
        } else if !channels_in_range(bg_color) {
            Err(OozeError::BadColorError(bg_color))
        } else {
            Ok(done)
        }
    }

    /// The colours of cell `k` of a random fill: the three channels of
    /// the foreground, then the three of the background, are draws
    /// `6 * k` and following; both colours are opaque.
    pub open spec fn drawn_colors(draws: Seq<u32>, k: int) -> ([u32; 4], [u32; 4]) {
        (
            [draws[6 * k], draws[6 * k + 1], draws[6 * k + 2], ONE],
            [draws[6 * k + 3], draws[6 * k + 4], draws[6 * k + 5], ONE],
        )
    }

    /// The first of the first `cells` cells of a random fill with a
    /// colour that `place` refuses; `cells` if there is none.
    pub open spec fn first_refused(draws: Seq<u32>, cells: int) -> int
        decreases cells,
    {
        if cells <= 0 {
            0
        } else {
            let before = PanelModel::first_refused(draws, cells - 1);
            let (fg_color, bg_color) = PanelModel::drawn_colors(draws, cells - 1);
            if before < cells - 1 {
                before
            } else if channels_in_range(fg_color) && channels_in_range(bg_color) {
                cells
            } else {
                cells - 1
            }
        }
    }

    /// This panel with the glyph "@", in the colours drawn for it, in
    /// each of the first `done` cells, in the order of `Rect::points`;
    /// every other cell as it was.
    pub open spec fn randomized(self, draws: Seq<u32>, done: int) -> PanelModel {
        PanelModel {
            contents: Seq::new(
                self.contents.len(),
                |x: int|
                    Seq::new(
                        self.contents[x].len(),
                        |y: int|
                            {
                                let point = Point { x: x as u32, y: y as u32 };
                                let k = self.rect().index_of(point);
                                if k < done {
                                    PanelModel::stamp(
                                        point,
                                        "@"@,
                                        PanelModel::drawn_colors(draws, k).0,
                                        PanelModel::drawn_colors(draws, k).1,
                                    )
                                } else {
                                    self.contents[x][y]
                                }
                            },
                    ),
            ),
            ..self
        }
    }

    /// What a random fill with the given draws comes to: where the draws
    /// are too few for the cells, an error and nothing changed; else the
    /// cells are filled in turn up to the first with a colour that is
    /// refused, which is the error, and those before it stay filled.
    pub open spec fn random_fill(self, draws: Seq<u32>) -> (PanelModel, Option<OozeError>) {
        let cells = self.dims.term_size.x * self.dims.term_size.y;
        if draws.len() < 6 * cells {
            (self, Some(OozeError::GenericError))
        } else {
            let stop = PanelModel::first_refused(draws, cells);
            let (fg_color, bg_color) = PanelModel::drawn_colors(draws, stop);
            (
                self.randomized(draws, stop),
                if stop == cells {
                    None
                } else if !channels_in_range(fg_color) {
                    Some(OozeError::BadColorError(fg_color))
                } else {
                    Some(OozeError::BadColorError(bg_color))
                },
            )
        }
    }

    /// Whether every cell holds a valid glyph: one with every channel of
    /// both colours in [0.0, 1.0].
    pub open spec fn valid_cells(self) -> bool {
        forall|x: int, y: int|
            0 <= x < self.contents.len() && 0 <= y < self.contents[x].len() ==> (
            #[trigger] self.contents[x][y]).valid()
    }

    /// This panel, hidden.
    pub open spec fn concealed(self) -> PanelModel {
        PanelModel { hidden: true, ..self }
    }

    /// This panel, not hidden.
    pub open spec fn shown(self) -> PanelModel {
        PanelModel { hidden: false, ..self }
    }

    /// This panel and every panel below it, depth first: a panel stands
    /// before its sub-panels, and a sub-panel with all below it before the
    /// sub-panel that was added next.
    pub open spec fn flatten(self) -> Seq<PanelModel>
        decreases self,
    {
        seq![self] + PanelModel::flatten_all(self.sub_panels)
    }

    /// The panels of `flatten` for each of `panels` in turn.
    pub open spec fn flatten_all(panels: Seq<PanelModel>) -> Seq<PanelModel>
        decreases panels,
    {
        if panels.len() == 0 {
            Seq::empty()
        } else {
            PanelModel::flatten_all(panels.drop_last()) + panels.last().flatten()
        }
    }
}

/// What a panel holds: its own values, the models of its glyphs cell for
/// cell, and the models of its sub-panels in their order.
pub open spec fn panel_model(panel: Panel) -> PanelModel
    decreases panel,
{
    PanelModel {
        dims: panel.dims,
        layer: panel.layer,
        hidden: panel.hidden,
        contents: Seq::new(
            panel.contents@.len(),
            |x: int| Seq::new(panel.contents@[x]@.len(), |y: int| panel.contents@[x]@[y]@),
        ),
        sub_panels: Seq::new(
            panel.sub_panels@.len(),
            |i: int|
                if 0 <= i < panel.sub_panels@.len() {
                    panel_model(panel.sub_panels@[i])
                } else {
                    PanelModel::blank(panel.dims)
                },
        ),
    }
}

/// What the panels behind the references hold, one for one.
pub open spec fn panel_models(panels: Seq<&Panel>) -> Seq<PanelModel> {
    panels.map_values(|panel: &Panel| panel@)
}

impl View for Panel {
    type V = PanelModel;

    open spec fn view(&self) -> PanelModel {
        panel_model(*self)
    }
}

impl Panel {
    /// The grid has area and is dense, here and in every panel below.
    pub open spec fn wf(&self) -> bool {
        self@.well_formed()
    }

    /// The model holds what the panel holds, cell for cell and sub-panel
    /// for sub-panel.
    pub proof fn lemma_view(&self)
        ensures
            self@.dims == self.dims,
            self@.layer == self.layer,
            self@.hidden == self.hidden,
            self@.contents.len() == self.contents@.len(),
            forall|x: int|
                0 <= x < self.contents@.len() ==> (#[trigger] self@.contents[x]).len()
                    == self.contents@[x]@.len(),
            forall|x: int, y: int|
                0 <= x < self.contents@.len() && 0 <= y < self.contents@[x]@.len()
                    ==> #[trigger] self@.contents[x][y] == self.contents@[x]@[y]@,
            self@.sub_panels.len() == self.sub_panels@.len(),
            forall|i: int|
                0 <= i < self.sub_panels@.len() ==> #[trigger] self@.sub_panels[i]
                    == self.sub_panels@[i]@,
    {
    }

    /// Tests whether the panel is well-formed: whether its grid has area
    /// and is dense, here and in every panel below. A panel that was made
    /// and changed by the functions of this type alone is.
    pub fn is_well_formed(&self) -> (ok: bool)
        ensures
            ok == self.wf(),
        decreases self,
    {
        proof {
            self.lemma_view();
        }
        if self.dims.term_size.x == 0 || self.dims.term_size.y == 0 {
            return false;
        }
        if self.contents.len() != self.dims.term_size.x as usize {
            return false;
        }
        let mut x: usize = 0;
        while x < self.contents.len()
            invariant
                x <= self.contents@.len(),
                self@.contents.len() == self.contents@.len(),
                forall|i: int|
                    0 <= i < self.contents@.len() ==> (#[trigger] self@.contents[i]).len()
                        == self.contents@[i]@.len(),
                forall|i: int|
                    0 <= i < x ==> (#[trigger] self@.contents[i]).len() == self.dims.term_size.y,
            decreases self.contents@.len() - x,
        {
            if self.contents[x].len() != self.dims.term_size.y as usize {
                assert(self@.contents[x as int].len() != self.dims.term_size.y);
                return false;
            }
            x = x + 1;
        }
        let mut i: usize = 0;
        while i < self.sub_panels.len()
            invariant
                i <= self.sub_panels@.len(),
                self@.sub_panels.len() == self.sub_panels@.len(),
                forall|k: int|
                    0 <= k < self.sub_panels@.len() ==> #[trigger] self@.sub_panels[k]
                        == self.sub_panels@[k]@,
                forall|k: int| 0 <= k < i ==> (#[trigger] self@.sub_panels[k]).well_formed(),
            decreases self.sub_panels@.len() - i,
        {
            if !self.sub_panels[i].is_well_formed() {
                assert(!self@.sub_panels[i as int].well_formed());
                return false;
            }
            i = i + 1;
        }
        true
    }

    /// Create a new Panel with the given dimensions: on layer 0, shown,
    /// without sub-panels, each cell blank. Dimensions without area are
    /// out of bounds.
    pub fn new(dims: Dimensions) -> (result: OozeResult<Panel>)
        ensures
            result is Ok <==> dims.term_size.x > 0 && dims.term_size.y > 0,
            result matches Ok(panel) ==> panel@ == PanelModel::blank(dims) && panel.wf(),
            result matches Err(err) ==> err is OutOfBoundsError,
    {
        if dims.term_size.x == 0 || dims.term_size.y == 0 {
            return Err(OozeError::OutOfBoundsError);
        }
        let mut outer: Vec<Vec<Glyph>> = Vec::new();
        let mut x: u32 = 0;
        while x < dims.term_size.x
            invariant
                x <= dims.term_size.x,
                outer@.len() == x,
                forall|i: int| 0 <= i < x ==> (#[trigger] outer@[i])@.len() == dims.term_size.y,
                forall|i: int, j: int|
                    0 <= i < x && 0 <= j < dims.term_size.y ==> (#[trigger] outer@[i]@[j])@
                        == GlyphModel::blank(Point { x: i as u32, y: j as u32 }),
            decreases dims.term_size.x - x,
        {
            let mut column: Vec<Glyph> = Vec::new();
            let mut y: u32 = 0;
            while y < dims.term_size.y
                invariant
                    y <= dims.term_size.y,
                    column@.len() == y,
                    forall|j: int|
                        0 <= j < y ==> (#[trigger] column@[j])@ == GlyphModel::blank(
                            Point { x, y: j as u32 },
                        ),
                decreases dims.term_size.y - y,
            {
                column.push(Glyph::blank(Point::new(x, y)));
                y = y + 1;
            }
            outer.push(column);
            x = x + 1;
        }
        let panel = Panel { dims, layer: 0, hidden: false, contents: outer, sub_panels: Vec::new() };
        proof {
            let model = PanelModel::blank(dims);
            assert(panel@.sub_panels =~= model.sub_panels);
            assert forall|i: int| 0 <= i < panel@.contents.len() implies panel@.contents[i]
                =~= model.contents[i] by {
                assert forall|j: int| 0 <= j < panel@.contents[i].len() implies panel@.contents[i][j]
                    == model.contents[i][j] by {
                    assert(panel.contents@[i]@[j]@ == GlyphModel::blank(
                        Point { x: i as u32, y: j as u32 },
                    ));
                }
            }
            assert(panel@.contents =~= model.contents);
        }
        Ok(panel)
    }

    /// Drawing functions should check Panel.hidden before drawing.
    pub fn conceal(&mut self)
        ensures
            final(self)@ == old(self)@.concealed(),
            final(self)@.hidden,
    {
        if !self.hidden {
            self.hidden = true;
        }
    }

    /// Drawing functions should check Panel.hidden before drawing.
    pub fn show(&mut self)
        ensures
            final(self)@ == old(self)@.shown(),
            !final(self)@.hidden,
    {
        if self.hidden {
            self.hidden = false;
        }
    }

    /// A Rect the size of this Panel, bottom-left of Rect at (0, 0).
    pub fn rect(&self) -> (r: Rect)
        ensures
            r == self@.rect(),
    {
        Rect::of_size(self.dims.term_size)
    }

    /// Set the drawing layer of this Panel.
    pub fn set_layer(&mut self, layer: usize)
        ensures
            final(self)@ == (PanelModel { layer, ..old(self)@ }),
    {
        self.layer = layer;
    }

    /// Get a reference to the Glyph at the given Point, which is counted
    /// from the bottom-left of this panel. A point outside of the panel is
    /// out of bounds.
    pub fn get(&self, point: Point) -> (result: OozeResult<&Glyph>)
        requires
            self.wf(),
        ensures
            result is Ok <==> self@.rect().spec_contains_point(point),
            result matches Ok(glyph) ==> *glyph == self.contents@[point.x as int]@[point.y as int]
                && glyph@ == self@.cell(point),
            result matches Err(err) ==> err is OutOfBoundsError,
    {
        if !self.rect().contains_point(point) {
            return Err(OozeError::OutOfBoundsError);
        }
        assert(self@.contents[point.x as int].len() == self.dims.term_size.y);
        Ok(&self.contents[point.x as usize][point.y as usize])
    }

    /// Set the Glyph at the given Point, which is counted from the
    /// bottom-left of this panel. A point outside of the panel is out of
    /// bounds, and the panel stays as it was.
    pub fn set(&mut self, point: Point, glyph: Glyph) -> (result: OozeResult<()>)
        requires
            old(self).wf(),
        ensures
            final(self).wf(),
            result is Ok <==> old(self)@.rect().spec_contains_point(point),
            result is Ok ==> final(self)@ == old(self)@.with_cell(point, glyph@),
            result matches Err(err) ==> err is OutOfBoundsError && final(self)@ == old(self)@,
    {
        if !self.rect().contains_point(point) {
            return Err(OozeError::OutOfBoundsError);
        }
        assert(self@.contents[point.x as int].len() == self.dims.term_size.y);
        self.contents[point.x as usize][point.y as usize] = glyph;
        proof {
            let before = old(self)@;
            let after = self@;
            let model = before.with_cell(point, glyph@);
            assert(after.sub_panels =~= model.sub_panels);
            assert forall|i: int| 0 <= i < after.contents.len() implies after.contents[i]
                =~= model.contents[i] by {
                assert(before.contents[i].len() == self.dims.term_size.y);
            }
            assert(after.contents =~= model.contents);
        }
        Ok(())
    }

    /// Add the given Panel as a sub-panel to this one, where its
    /// rectangle lies inside this panel. Its offset is then counted from
    /// where this panel's offset is counted from, and its layer is this
    /// panel's layer + 1. The panels below the given one stay as they are.
    pub fn add_sub_panel(&mut self, panel: Panel) -> (result: OozeResult<()>)
        requires
            old(self).wf(),
            panel.wf(),
        ensures
            final(self).wf(),
            result is Ok <==> old(self)@.accepts(panel.dims),
            result is Ok ==> final(self)@ == old(self)@.attach(panel@),
            result matches Err(err) ==> err is OutOfBoundsError && final(self)@ == old(self)@,
    {
        if !self.rect().contains_rect(panel.dims.rect()) {
            return Err(OozeError::OutOfBoundsError);
        }
        let mut panel = panel;
        let ghost given = panel@;
        proof {
            panel.lemma_view();
        }
        panel.dims.offset = panel.dims.offset.plus(self.dims.offset);
        panel.layer = if self.layer < usize::MAX {
            self.layer + 1
        } else {
            self.layer
        };
        proof {
            let adopted = old(self)@.adopted(given);
            panel.lemma_view();
            assert(panel@.contents =~= adopted.contents);
            assert(panel@.sub_panels =~= adopted.sub_panels);
            assert(panel@ == adopted);
        }
        self.sub_panels.push(panel);
        proof {
            let model = old(self)@.attach(given);
            self.lemma_view();
            old(self).lemma_view();
            assert(given.well_formed());
            assert(old(self)@.adopted(given).well_formed());
            assert(model.sub_panels.last().well_formed());
            assert forall|i: int| 0 <= i < model.sub_panels.len() implies (
            #[trigger] model.sub_panels[i]).well_formed() by {
                if i < old(self)@.sub_panels.len() {
                    assert(model.sub_panels[i] == old(self)@.sub_panels[i]);
                }
            }
            assert(self@.contents =~= model.contents);
            assert(self@.sub_panels =~= model.sub_panels);
        }
        Ok(())
    }

    /// Create a new sub-panel with the given dimensions and add it to this
    /// one.
    pub fn add_sub_panel_with(&mut self, dims: Dimensions) -> (result: OozeResult<()>)
        requires
            old(self).wf(),
        ensures
            final(self).wf(),
            result is Ok <==> old(self)@.accepts(dims),
            result is Ok ==> final(self)@ == old(self)@.attach(PanelModel::blank(dims)),
            result matches Err(err) ==> err is OutOfBoundsError && final(self)@ == old(self)@,
    {
        match Panel::new(dims) {
            Ok(panel) => self.add_sub_panel(panel),
            Err(err) => Err(err),
        }
    }

    /// Place a Glyph with the given info in the cell `(x, y)`.
    pub fn place(&mut self, x: u32, y: u32, id: &str, fg_color: [u32; 4], bg_color: [u32; 4]) -> (result:
        OozeResult<()>)
        requires
            old(self).wf(),
        ensures
            final(self).wf(),
            match old(self)@.placed(Point { x, y }, id@, fg_color, bg_color) {
                Ok(model) => result is Ok && final(self)@ == model,
                Err(err) => result == Err::<(), OozeError>(err) && final(self)@ == old(self)@,
            },
    {
        let point = Point::new(x, y);
        match Glyph::new(point, fg_color, bg_color, id.to_owned()) {
            Ok(glyph) => self.set(point, glyph),
            Err(err) => Err(err),
        }
    }

    /// Returns a Vector of references to all the glyphs in this Panel,
    /// column by column.
    pub fn glyphs(&self) -> (result: Vec<&Glyph>)
        ensures
            glyph_models(result@) == self@.glyphs(),
    {
        let mut result: Vec<&Glyph> = Vec::new();
        let ghost columns = self@.contents;
        proof {
            self.lemma_view();
        }
        let mut x: usize = 0;
        assert(columns.take(0).flatten() =~= Seq::<GlyphModel>::empty());
        assert(glyph_models(result@) =~= Seq::<GlyphModel>::empty());
        while x < self.contents.len()
            invariant
                columns == self@.contents,
                columns.len() == self.contents@.len(),
                x <= self.contents@.len(),
                glyph_models(result@) == columns.take(x as int).flatten(),
            decreases self.contents@.len() - x,
        {
            let column = &self.contents[x];
            let ghost before = result@;
            proof {
                self.lemma_view();
            }
            let mut y: usize = 0;
            assert(glyph_models(result@) =~= glyph_models(before) + columns[x as int].take(0));
            while y < column.len()
                invariant
                    columns == self@.contents,
                    x < self.contents@.len(),
                    column == self.contents@[x as int],
                    columns[x as int].len() == column@.len(),
                    forall|j: int|
                        0 <= j < column@.len() ==> (#[trigger] column@[j])@ == columns[x as int][j],
                    y <= column@.len(),
                    glyph_models(result@) == glyph_models(before) + columns[x as int].take(
                        y as int,
                    ),
                decreases column@.len() - y,
            {
                let ghost so_far = result@;
                result.push(&column[y]);
                proof {
                    let taken = columns[x as int].take(y + 1);
                    assert(result@ == so_far.push(&column@[y as int]));
                    assert(glyph_models(result@) =~= glyph_models(so_far).push(column@[y as int]@));
                    assert(taken =~= columns[x as int].take(y as int).push(
                        columns[x as int][y as int],
                    ));
                    assert(glyph_models(result@) =~= glyph_models(before) + taken);
                }
                y = y + 1;
            }
            proof {
                assert(columns[x as int].take(y as int) =~= columns[x as int]);
                assert(columns.take(x + 1) =~= columns.take(x as int).push(columns[x as int]));
                columns.take(x as int).lemma_flatten_push(columns[x as int]);
            }
            x = x + 1;
        }
        assert(columns.take(x as int) =~= columns);
        result
    }

    /// Returns a Vector of references to this Panel and to all the Panels
    /// below it in the Panel tree, depth first.
    pub fn all_sub_panels(&self) -> (result: Vec<&Panel>)
        ensures
            panel_models(result@) == self@.flatten(),
        decreases self,
    {
        let mut result: Vec<&Panel> = Vec::new();
        result.push(self);
        let ghost below = self@.sub_panels;
        let mut i: usize = 0;
        proof {
            self.lemma_view();
        }
        assert(panel_models(result@) =~= seq![self@] + PanelModel::flatten_all(below.take(0)));
        while i < self.sub_panels.len()
            invariant
                below == self@.sub_panels,
                below.len() == self.sub_panels@.len(),
                forall|k: int|
                    0 <= k < below.len() ==> #[trigger] below[k] == self.sub_panels@[k]@,
                i <= self.sub_panels@.len(),
                panel_models(result@) == seq![self@] + PanelModel::flatten_all(
                    below.take(i as int),
                ),
            decreases self.sub_panels@.len() - i,
        {
            let mut found = self.sub_panels[i].all_sub_panels();
            let ghost before = result@;
            let ghost more = found@;
            result.append(&mut found);
            proof {
                assert(result@ == before + more);
                assert(panel_models(result@) =~= panel_models(before) + panel_models(more));
                assert(below.take(i + 1).drop_last() =~= below.take(i as int));
                assert(below.take(i + 1).last() == below[i as int]);
            }
            i = i + 1;
        }
        assert(below.take(i as int) =~= below);
        result
    }

    /// Puts a new glyph in every cell, or in every cell of the border, in
    /// the order of `Rect::points`.
    fn stamp_cells(
        &mut self,
        border_only: bool,
        id: &str,
        fg_color: [u32; 4],
        bg_color: [u32; 4],
    ) -> (result: OozeResult<()>)
        requires
            old(self).wf(),
        ensures
            final(self).wf(),
            match old(self)@.bulk(
                fg_color,
                bg_color,
                old(self)@.stamped(
                    old(self)@.dims.term_size.x * old(self)@.dims.term_size.y,
                    border_only,
                    id@,
                    fg_color,
                    bg_color,
                ),
            ) {
                Ok(model) => result is Ok && final(self)@ == model,
                Err(err) => result == Err::<(), OozeError>(err) && final(self)@ == old(self)@,
            },
    {
        if !color_in_range(&fg_color) {
            return Err(OozeError::BadColorError(fg_color));
        }
        if !color_in_range(&bg_color) {
            return Err(OozeError::BadColorError(bg_color));
        }
        let rect = self.rect();
        let points = rect.points();
        let last_x: u32 = rect.size.x - 1;
        let last_y: u32 = rect.size.y - 1;
        let ghost start = self@;
        proof {
            rect.lemma_points_len();
            assert(start.stamped(0, border_only, id@, fg_color, bg_color).contents =~= start.contents)
                by {
                let none = start.stamped(0, border_only, id@, fg_color, bg_color);
                assert forall|x: int| 0 <= x < start.contents.len() implies none.contents[x]
                    =~= start.contents[x] by {
                    assert forall|y: int| 0 <= y < start.contents[x].len() implies none.contents[x][y]
                        == start.contents[x][y] by {
                        rect.lemma_index_of(Point { x: x as u32, y: y as u32 });
                    }
                }
            }
        }
        let mut k: usize = 0;
        while k < points.len()
            invariant
                self.wf(),
                start.well_formed(),
                rect == start.rect(),
                points@ == rect.spec_points(),
                points@.len() == start.dims.term_size.x * start.dims.term_size.y,
                last_x == start.dims.term_size.x - 1,
                last_y == start.dims.term_size.y - 1,
                channels_in_range(fg_color),
                channels_in_range(bg_color),
                k <= points@.len(),
                self@ == start.stamped(k as int, border_only, id@, fg_color, bg_color),
            decreases points@.len() - k,
        {
            let point = points[k];
            let ghost before = self@;
            proof {
                rect.lemma_point_at(k as int);
            }
            if !border_only || point.x == 0 || point.x == last_x || point.y == 0 || point.y
                == last_y {
                match self.place(point.x, point.y, id, fg_color, bg_color) {
                    Ok(()) => {},
                    Err(err) => {
                        return Err(err);
                    },
                }
            }
            proof {
                let next = start.stamped(k + 1, border_only, id@, fg_color, bg_color);
                assert forall|x: int| 0 <= x < next.contents.len() implies self@.contents[x]
                    =~= next.contents[x] by {
                    assert forall|y: int| 0 <= y < next.contents[x].len() implies self@.contents[x][y]
                        == next.contents[x][y] by {
                        let cell = Point { x: x as u32, y: y as u32 };
                        rect.lemma_index_of(cell);
                        assert(before.contents[x][y] == start.stamped(
                            k as int,
                            border_only,
                            id@,
                            fg_color,
                            bg_color,
                        ).contents[x][y]);
                    }
                }
                assert(self@.contents =~= next.contents);
            }
            k = k + 1;
        }
        Ok(())
    }

    /// Fill the Panel with the glyph "@" in colours drawn at random. The
    /// draws are channels between 0.0 and 1.0, six for each cell: red,
    /// green and blue of the foreground, then of the background; the cells
    /// take them in the order of `Rect::points`, and every colour is
    /// opaque. With too few draws nothing is filled. A draw outside of
    /// [0.0, 1.0] ends the fill at its cell; the cells before it stay
    /// filled.
    pub fn fill_with_random(&mut self, draws: &Vec<u32>) -> (result: OozeResult<()>)
        requires
            old(self).wf(),
        ensures
            final(self).wf(),
            final(self)@ == old(self)@.random_fill(draws@).0,
            match old(self)@.random_fill(draws@).1 {
                None => result is Ok,
                Some(err) => result == Err::<(), OozeError>(err),
            },
    {
        let rect = self.rect();
        let points = rect.points();
        let ghost start = self@;
        proof {
            rect.lemma_points_len();
        }
        if draws.len() / 6 < points.len() {
            assert(draws@.len() < 6 * points@.len());
            return Err(OozeError::GenericError);
        }
        assert(6 * points@.len() <= draws@.len());
        proof {
            assert(start.randomized(draws@, 0).contents =~= start.contents) by {
                let none = start.randomized(draws@, 0);
                assert forall|x: int| 0 <= x < start.contents.len() implies none.contents[x]
                    =~= start.contents[x] by {
                    assert forall|y: int| 0 <= y < start.contents[x].len() implies none.contents[x][y]
                        == start.contents[x][y] by {
                        rect.lemma_index_of(Point { x: x as u32, y: y as u32 });
                    }
                }
            }
        }
        let mut k: usize = 0;
        while k < points.len()
            invariant
                self.wf(),
                start.well_formed(),
                rect == start.rect(),
                points@ == rect.spec_points(),
                points@.len() == start.dims.term_size.x * start.dims.term_size.y,
                6 * points@.len() <= draws@.len(),
                draws@.len() <= usize::MAX,
                start == old(self)@,
                k <= points@.len(),
                PanelModel::first_refused(draws@, k as int) == k,
                self@ == start.randomized(draws@, k as int),
            decreases points@.len() - k,
        {
            let point = points[k];
            let ghost before = self@;
            proof {
                rect.lemma_point_at(k as int);
            }
            let fg_color: [u32; 4] = [draws[6 * k], draws[6 * k + 1], draws[6 * k + 2], ONE];
            let bg_color: [u32; 4] = [draws[6 * k + 3], draws[6 * k + 4], draws[6 * k + 5], ONE];
            proof {
                assert(fg_color == PanelModel::drawn_colors(draws@, k as int).0);
                assert(bg_color == PanelModel::drawn_colors(draws@, k as int).1);
            }
            match self.place(point.x, point.y, "@", fg_color, bg_color) {
                Ok(()) => {},
                Err(err) => {
                    proof {
                        assert(before.rect().spec_contains_point(point));
                        assert(!(channels_in_range(fg_color) && channels_in_range(bg_color)));
                        PanelModel::lemma_first_refused(draws@, k as int, points@.len() as int);
                        assert(PanelModel::first_refused(draws@, points@.len() as int) == k);
                    }
                    return Err(err);
                },
            }
            proof {
                let next = start.randomized(draws@, k + 1);
                assert forall|x: int| 0 <= x < next.contents.len() implies self@.contents[x]
                    =~= next.contents[x] by {
                    assert forall|y: int| 0 <= y < next.contents[x].len() implies self@.contents[x][y]
                        == next.contents[x][y] by {
                        let cell = Point { x: x as u32, y: y as u32 };
                        rect.lemma_index_of(cell);
                        assert(before.contents[x][y] == start.randomized(
                            draws@,
                            k as int,
                        ).contents[x][y]);
                    }
                }
                assert(self@.contents =~= next.contents);
            }
            k = k + 1;
        }
        Ok(())
    }

    /// Make a border of Glyphs with the given info on this Panel: in the
    /// first and last column and in the first and last row. Fails, with
    /// nothing changed, where a colour has a channel outside of
    /// [0.0, 1.0].
    pub fn make_border(&mut self, id: &str, fg_color: [u32; 4], bg_color: [u32; 4]) -> (result:
        OozeResult<()>)
        requires
            old(self).wf(),
        ensures
            final(self).wf(),
            match old(self)@.bulk(fg_color, bg_color, old(self)@.bordered(id@, fg_color, bg_color)) {
                Ok(model) => result is Ok && final(self)@ == model,
                Err(err) => result == Err::<(), OozeError>(err) && final(self)@ == old(self)@,
            },
    {
        proof {
            let start = self@;
            let total = start.dims.term_size.x * start.dims.term_size.y;
            let done = start.stamped(total, true, id@, fg_color, bg_color);
            let wanted = start.bordered(id@, fg_color, bg_color);
            start.rect().lemma_points_len();
            assert forall|x: int| 0 <= x < done.contents.len() implies done.contents[x]
                =~= wanted.contents[x] by {
                assert forall|y: int| 0 <= y < done.contents[x].len() implies done.contents[x][y]
                    == wanted.contents[x][y] by {
                    start.rect().lemma_index_of(Point { x: x as u32, y: y as u32 });
                }
            }
            assert(done.contents =~= wanted.contents);
        }
        self.stamp_cells(true, id, fg_color, bg_color)
    }

    /// Fill the Panel with Glyphs with the given info. Fails, with nothing
    /// changed, where a colour has a channel outside of [0.0, 1.0].
    pub fn fill_with(&mut self, id: &str, fg_color: [u32; 4], bg_color: [u32; 4]) -> (result:
        OozeResult<()>)
        requires
            old(self).wf(),
        ensures
            final(self).wf(),
            match old(self)@.bulk(fg_color, bg_color, old(self)@.filled(id@, fg_color, bg_color)) {
                Ok(model) => result is Ok && final(self)@ == model,
                Err(err) => result == Err::<(), OozeError>(err) && final(self)@ == old(self)@,
            },
    {
        proof {
            let start = self@;
            let total = start.dims.term_size.x * start.dims.term_size.y;
            let done = start.stamped(total, false, id@, fg_color, bg_color);
            let wanted = start.filled(id@, fg_color, bg_color);
            start.rect().lemma_points_len();
            assert forall|x: int| 0 <= x < done.contents.len() implies done.contents[x]
                =~= wanted.contents[x] by {
                assert forall|y: int| 0 <= y < done.contents[x].len() implies done.contents[x][y]
                    == wanted.contents[x][y] by {
                    start.rect().lemma_index_of(Point { x: x as u32, y: y as u32 });
                }
            }
            assert(done.contents =~= wanted.contents);
        }
        self.stamp_cells(false, id, fg_color, bg_color)
    }
}

impl PanelModel {
    /// The first cell that is refused stays the first, however many
    /// cells follow it.
    pub proof fn lemma_first_refused(draws: Seq<u32>, k: int, cells: int)
        requires
            0 <= k < cells,
            PanelModel::first_refused(draws, k) == k,
            !(channels_in_range(PanelModel::drawn_colors(draws, k).0) && channels_in_range(
                PanelModel::drawn_colors(draws, k).1,
            )),
        ensures
            PanelModel::first_refused(draws, cells) == k,
        decreases cells - k,
    {
        if cells > k + 1 {
            PanelModel::lemma_first_refused(draws, k, cells - 1);
        }
    }
}

impl PanelModel {
    /// Before the first cell of a random fill that is refused, no cell
    /// is: each has colours in range.
    pub proof fn lemma_before_first_refused(draws: Seq<u32>, cells: int, k: int)
        requires
            0 <= k < PanelModel::first_refused(draws, cells),
        ensures
            channels_in_range(PanelModel::drawn_colors(draws, k).0),
            channels_in_range(PanelModel::drawn_colors(draws, k).1),
            PanelModel::first_refused(draws, cells) <= cells,
        decreases cells,
    {
        if cells > 0 {
            if k < PanelModel::first_refused(draws, cells - 1) {
                PanelModel::lemma_before_first_refused(draws, cells - 1, k);
            }
        }
    }
}

/// Every cell of a panel holds a valid glyph at all times: a new panel
/// does, and what `place`, `fill_with`, `make_border` and
/// `fill_with_random` leave does where what they found did, whether they
/// succeed or fail; `set` keeps it so for a valid glyph.
pub proof fn lemma_cells_stay_valid(
    panel: PanelModel,
    point: Point,
    id: Seq<char>,
    fg_color: [u32; 4],
    bg_color: [u32; 4],
    glyph: GlyphModel,
    draws: Seq<u32>,
)
    requires
        panel.well_formed(),
        panel.valid_cells(),
    ensures
        PanelModel::blank(panel.dims).valid_cells(),
        panel.placed(point, id, fg_color, bg_color) matches Ok(after) ==> after.valid_cells(),
        panel.bulk(fg_color, bg_color, panel.filled(id, fg_color, bg_color)) matches Ok(after)
            ==> after.valid_cells(),
        panel.bulk(fg_color, bg_color, panel.bordered(id, fg_color, bg_color)) matches Ok(after)
            ==> after.valid_cells(),
        panel.random_fill(draws).0.valid_cells(),
        glyph.valid() && panel.rect().spec_contains_point(point) ==> panel.with_cell(
            point,
            glyph,
        ).valid_cells(),
{
    if panel.rect().spec_contains_point(point) {
        assert(panel.contents[point.x as int].len() == panel.dims.term_size.y);
    }
    let cells = panel.dims.term_size.x * panel.dims.term_size.y;
    let filled = panel.random_fill(draws).0;
    assert forall|x: int, y: int|
        0 <= x < filled.contents.len() && 0 <= y < filled.contents[x].len() implies (
    #[trigger] filled.contents[x][y]).valid() by {
        assert(panel.contents[x].len() == panel.dims.term_size.y);
        if draws.len() >= 6 * cells {
            let k = panel.rect().index_of(Point { x: x as u32, y: y as u32 });
            panel.rect().lemma_index_of(Point { x: x as u32, y: y as u32 });
            if k < PanelModel::first_refused(draws, cells) {
                PanelModel::lemma_before_first_refused(draws, cells, k);
            }
        }
    }
}

/// A new panel has area, is dense, and holds in every cell the blank
/// glyph of that cell: a valid glyph at the cell's own coordinate.
pub proof fn lemma_blank_panel(dims: Dimensions, point: Point)
    requires
        dims.term_size.x >= 1,
        dims.term_size.y >= 1,
        PanelModel::blank(dims).rect().spec_contains_point(point),
    ensures
        PanelModel::blank(dims).well_formed(),
        PanelModel::blank(dims).cell(point) == GlyphModel::blank(point),
        PanelModel::blank(dims).cell(point).location == point,
        PanelModel::blank(dims).cell(point).valid(),
{
}

/// A panel takes a sub-panel exactly when its local rectangle contains
/// the rectangle that the dimensions name. The sub-panel then lies one
/// layer above, at its own offset added to that of the panel, as far as
/// the numbers reach: a layer or a coordinate past the largest stays at
/// the largest.
pub proof fn lemma_attach(parent: PanelModel, dims: Dimensions)
    ensures
        parent.accepts(dims) <==> Rect::spec_of_size(parent.dims.term_size).spec_contains_rect(
            Rect { bottom_left: dims.offset, size: dims.term_size },
        ),
        parent.attach(PanelModel::blank(dims)).sub_panels.len() == parent.sub_panels.len() + 1,
        ({
            let child = parent.attach(PanelModel::blank(dims)).sub_panels.last();
            &&& child.dims.offset == dims.offset.spec_plus(parent.dims.offset)
            &&& child.layer == layer_above(parent.layer)
            &&& dims.offset.x + parent.dims.offset.x <= u32::MAX ==> child.dims.offset.x
                == dims.offset.x + parent.dims.offset.x
            &&& dims.offset.y + parent.dims.offset.y <= u32::MAX ==> child.dims.offset.y
                == dims.offset.y + parent.dims.offset.y
            &&& parent.layer < usize::MAX ==> child.layer == parent.layer + 1
            &&& child.dims.term_size == dims.term_size
            &&& child.contents == PanelModel::blank(dims).contents
        }),
{
}

/// A glyph that was placed is the glyph that is got: where `place`
/// succeeds, the cell at the point holds a glyph with the id, the colours
/// and the location that were given, and every other cell holds what it
/// held.
pub proof fn lemma_place_then_get(
    panel: PanelModel,
    point: Point,
    id: Seq<char>,
    fg_color: [u32; 4],
    bg_color: [u32; 4],
    other: Point,
)
    requires
        panel.well_formed(),
        panel.placed(point, id, fg_color, bg_color) is Ok,
        panel.rect().spec_contains_point(other),
    ensures
        ({
            let after = panel.placed(point, id, fg_color, bg_color)->Ok_0;
            &&& after.well_formed()
            &&& after.rect().spec_contains_point(point)
            &&& after.cell(point).sprite_id == id
            &&& after.cell(point).fg_color == fg_color
            &&& after.cell(point).bg_color == bg_color
            &&& after.cell(point).location == point
            &&& other != point ==> after.cell(other) == panel.cell(other)
        }),
{
    assert(panel.contents[point.x as int].len() == panel.dims.term_size.y);
}

/// To hide a hidden panel, or to show one that is shown, changes
/// nothing; a panel that was hidden is hidden, and one that was shown is
/// not, however often.
pub proof fn lemma_conceal_show(panel: PanelModel)
    ensures
        panel.concealed().concealed() == panel.concealed(),
        panel.concealed().hidden,
        panel.shown().shown() == panel.shown(),
        !panel.shown().hidden,
        panel.hidden ==> panel.concealed() == panel,
        !panel.hidden ==> panel.shown() == panel,
        panel.concealed().sub_panels == panel.sub_panels,
        panel.shown().sub_panels == panel.sub_panels,
{
}

} // verus!
