//! The composite phase: every camera buffer merged into the one frame the
//! presenter sends to the terminal.
//!
//! The frame is sized to the terminal and cleared each frame, then camera
//! buffers merge into it in camera order, so a higher-order camera lands on
//! top. A transparent camera copies only the cells it actually drew and
//! leaves lower cameras showing through; the others merge wholesale and
//! their untouched cells overwrite whatever was beneath.

use vstd::prelude::*;

use crate::buffer::{
    blank_view, col_of, in_area, index_in, is_blank, lemma_area_fits, lemma_index_in_bounds,
    lemma_index_position, row_of, Buffer, Cell, CellView,
};
use crate::camera::{Background, ExtractedCamera, TerminalSize};
use crate::geometry::{lemma_union_covers, Position, Rect};
use crate::order::{sort_order, stable_order, stable_sort_indices};

verus! {

/// The composed full-terminal frame, consumed by the presenter.
pub struct FrameBuffer(pub Buffer);

impl Default for FrameBuffer {
    /// An empty frame at the origin.
    fn default() -> (f: FrameBuffer)
        ensures
            f.0.wf(),
            f.0.area == (Rect { x: 0, y: 0, width: 0, height: 0 }),
    {
        FrameBuffer(Buffer::empty(Rect::zero()))
    }
}

/// The cell a buffer model shows at `(x, y)`.
pub open spec fn cell_at(model: (Rect, Seq<CellView>), x: int, y: int) -> CellView {
    model.1[index_in(model.0, x, y)]
}

/// A buffer model of `area` showing blank cells only.
pub open spec fn blank_model(area: Rect) -> (Rect, Seq<CellView>) {
    (area, Seq::new((area.width * area.height) as nat, |i: int| blank_view()))
}

/// `top` merged over `base`: the area grows to cover both, `top`'s cells
/// win where it has them, `base` shows elsewhere, and cells neither covers
/// are blank.
pub open spec fn merged(base: (Rect, Seq<CellView>), top: (Rect, Seq<CellView>)) -> (
    Rect,
    Seq<CellView>,
) {
    let area = base.0.union_spec(top.0);
    (
        area,
        Seq::new(
            (area.width * area.height) as nat,
            |i: int|
                {
                    let x = col_of(area, i);
                    let y = row_of(area, i);
                    if in_area(top.0, x, y) {
                        cell_at(top, x, y)
                    } else if in_area(base.0, x, y) {
                        cell_at(base, x, y)
                    } else {
                        blank_view()
                    }
                },
        ),
    )
}

/// `top` laid over `base` transparently: `base` keeps its area, and only
/// the cells `top` actually drew - those that are not blank - replace
/// `base`'s.
pub open spec fn overlaid(base: (Rect, Seq<CellView>), top: (Rect, Seq<CellView>)) -> (
    Rect,
    Seq<CellView>,
) {
    (
        base.0,
        Seq::new(
            base.1.len(),
            |i: int|
                {
                    let x = col_of(base.0, i);
                    let y = row_of(base.0, i);
                    if in_area(top.0, x, y) && cell_at(top, x, y) != blank_view() {
                        cell_at(top, x, y)
                    } else {
                        base.1[i]
                    }
                },
        ),
    )
}

/// A buffer that fits: its content matches its area and its far edges stay
/// within `u16`.
pub open spec fn sound(b: &Buffer) -> bool {
    b.wf() && b.area.fits()
}

impl Buffer {
    /// Merges `other` into this buffer: the area grows to cover both,
    /// `other`'s cells overwrite, this buffer's cells keep their screen
    /// positions, and newly covered cells are blank.
    pub fn merge(&mut self, other: &Buffer)
        requires
            sound(old(self)),
            sound(other),
        ensures
            sound(final(self)),
            final(self)@ == merged(old(self)@, other@),
    {
        let area = self.area.union(other.area);
        proof {
            lemma_union_covers(self.area, other.area);
            lemma_area_fits(area);
        }
        let n = area.area() as usize;
        let w = area.width as usize;
        let mut content: Vec<Cell> = Vec::new();
        let mut i: usize = 0;
        while i < n
            invariant
                i <= n,
                n == area.width * area.height,
                w == area.width,
                area == self.area.union_spec(other.area),
                area.fits(),
                sound(self),
                sound(other),
                content@.len() == i,
                forall|j: int|
                    0 <= j < i ==> (#[trigger] content@[j])@ == merged(self@, other@).1[j],
            decreases n - i,
        {
            proof {
                lemma_index_position(area, i as int);
            }
            let x = area.x + (i % w) as u16;
            let y = area.y + (i / w) as u16;
            let position = Position::new(x, y);
            let cell = match other.cell(position) {
                Some(c) => c.duplicate(),
                None => match self.cell(position) {
                    Some(c) => c.duplicate(),
                    None => Cell::empty(),
                },
            };
            proof {
                if in_area(other.area, x as int, y as int) {
                    lemma_index_in_bounds(other.area, x as int, y as int);
                    assert(other@.1[index_in(other.area, x as int, y as int)] == other.content@[index_in(
                        other.area,
                        x as int,
                        y as int,
                    )]@);
                } else if in_area(self.area, x as int, y as int) {
                    lemma_index_in_bounds(self.area, x as int, y as int);
                    assert(self@.1[index_in(self.area, x as int, y as int)] == self.content@[index_in(
                        self.area,
                        x as int,
                        y as int,
                    )]@);
                }
            }
            content.push(cell);
            i = i + 1;
        }
        self.area = area;
        self.content = content;
        proof {
            assert(self@.1 =~= merged(old(self)@, other@).1);
        }
    }
}

/// Copies the cells `layer` drew - those that are not blank - onto
/// `frame`, wherever the frame has that position; blank cells let what is
/// beneath show through.
pub fn merge_transparent(frame: &mut Buffer, layer: &Buffer)
    requires
        sound(old(frame)),
        sound(layer),
    ensures
        sound(final(frame)),
        final(frame)@ == overlaid(old(frame)@, layer@),
{
    let area = layer.area;
    proof {
        lemma_area_fits(area);
    }
    let n = area.area() as usize;
    let w = area.width as usize;
    let ghost base = frame@;
    let mut i: usize = 0;
    while i < n
        invariant
            i <= n,
            n == area.width * area.height,
            w == area.width,
            area == layer.area,
            sound(frame),
            sound(layer),
            frame.area == base.0,
            base.1.len() == frame.content@.len(),
            forall|j: int|
                0 <= j < frame.content@.len() ==> (#[trigger] frame.content@[j])@ == {
                    let x = col_of(base.0, j);
                    let y = row_of(base.0, j);
                    if in_area(area, x, y) && index_in(area, x, y) < i && cell_at(layer@, x, y)
                        != blank_view() {
                        cell_at(layer@, x, y)
                    } else {
                        base.1[j]
                    }
                },
        decreases n - i,
    {
        proof {
            lemma_index_position(area, i as int);
        }
        let x = area.x + (i % w) as u16;
        let y = area.y + (i / w) as u16;
        let position = Position::new(x, y);
        let drawn = !layer.content[i].is_blank();
        if drawn {
            match frame.index_of_opt(position) {
                Some(k) => {
                    let ghost before = frame.content@;
                    let cell = layer.content[i].duplicate();
                    frame.content.set(k, cell);
                    proof {
                        assert forall|j: int| 0 <= j < frame.content@.len() implies (
                        #[trigger] frame.content@[j])@ == {
                            let x = col_of(base.0, j);
                            let y = row_of(base.0, j);
                            if in_area(area, x, y) && index_in(area, x, y) < i + 1 && cell_at(
                                layer@,
                                x,
                                y,
                            ) != blank_view() {
                                cell_at(layer@, x, y)
                            } else {
                                base.1[j]
                            }
                        } by {
                            lemma_index_position(frame.area, j);
                            let xj = col_of(base.0, j);
                            let yj = row_of(base.0, j);
                            if j == k {
                                assert(xj == x && yj == y) by {
                                    crate::buffer::lemma_index_injective(
                                        frame.area,
                                        xj,
                                        yj,
                                        x as int,
                                        y as int,
                                    );
                                }
                                lemma_index_in_bounds(area, x as int, y as int);
                            } else if in_area(area, xj, yj) && index_in(area, xj, yj) == i {
                                lemma_index_in_bounds(area, xj, yj);
                                crate::buffer::lemma_index_injective(
                                    area,
                                    xj,
                                    yj,
                                    x as int,
                                    y as int,
                                );
                                lemma_index_in_bounds(frame.area, x as int, y as int);
                            }
                        }
                    }
                },
                None => {
                    proof {
                        assert forall|j: int| 0 <= j < frame.content@.len() implies !(in_area(
                            area,
                            col_of(base.0, j),
                            row_of(base.0, j),
                        ) && index_in(area, col_of(base.0, j), row_of(base.0, j)) == i) by {
                            lemma_index_position(frame.area, j);
                            if in_area(area, col_of(base.0, j), row_of(base.0, j)) && index_in(
                                area,
                                col_of(base.0, j),
                                row_of(base.0, j),
                            ) == i {
                                lemma_index_in_bounds(area, col_of(base.0, j), row_of(base.0, j));
                                crate::buffer::lemma_index_injective(
                                    area,
                                    col_of(base.0, j),
                                    row_of(base.0, j),
                                    x as int,
                                    y as int,
                                );
                            }
                        }
                    }
                },
            }
        } else {
            proof {
                assert(is_blank(layer.content@[i as int]));
                assert forall|j: int|
                    0 <= j < frame.content@.len() && in_area(
                        area,
                        col_of(base.0, j),
                        row_of(base.0, j),
                    ) && index_in(area, col_of(base.0, j), row_of(base.0, j)) == i implies cell_at(
                    layer@,
                    col_of(base.0, j),
                    row_of(base.0, j),
                ) == blank_view() by {
                    lemma_index_in_bounds(area, col_of(base.0, j), row_of(base.0, j));
                }
            }
        }
        i = i + 1;
    }
    proof {
        assert forall|j: int| 0 <= j < frame.content@.len() implies (#[trigger] frame@.1[j])
            == overlaid(base, layer@).1[j] by {
            lemma_index_position(frame.area, j);
            if in_area(area, col_of(base.0, j), row_of(base.0, j)) {
                lemma_index_in_bounds(area, col_of(base.0, j), row_of(base.0, j));
            }
        }
        assert(frame@.1 =~= overlaid(base, layer@).1);
    }
}

/// One camera's contribution to the frame: the merge its background asks
/// for, or nothing when its buffer covers no cell.
pub open spec fn composite_step(
    frame: (Rect, Seq<CellView>),
    camera: ExtractedCamera,
    layer: (Rect, Seq<CellView>),
) -> (Rect, Seq<CellView>) {
    if layer.0.empty_spec() {
        frame
    } else {
        match camera.background {
            Background::Transparent => overlaid(frame, layer),
            _ => merged(frame, layer),
        }
    }
}

/// The frame the layers compose to over `screen`, merged in the given
/// sequence, each on top of those before it.
pub open spec fn composed(screen: Rect, layers: Seq<(ExtractedCamera, (Rect, Seq<CellView>))>) -> (
    Rect,
    Seq<CellView>,
)
    decreases layers.len(),
{
    if layers.len() == 0 {
        blank_model(screen)
    } else {
        let (camera, layer) = layers.last();
        composite_step(composed(screen, layers.drop_last()), camera, layer)
    }
}

/// A buffer model whose content matches its area, and whose far edges
/// fit in `u16`.
pub open spec fn model_sound(m: (Rect, Seq<CellView>)) -> bool {
    m.1.len() == m.0.width * m.0.height && m.0.fits()
}

/// Within a sound model, the cell at a position of its area is the one at
/// that position's index.
proof fn lemma_cell_lookup(area: Rect, x: int, y: int)
    requires
        in_area(area, x, y),
    ensures
        0 <= index_in(area, x, y) < area.width * area.height,
        col_of(area, index_in(area, x, y)) == x,
        row_of(area, index_in(area, x, y)) == y,
{
    lemma_index_in_bounds(area, x, y);
}

/// Each compositing step keeps the frame sound.
proof fn lemma_step_sound(frame: (Rect, Seq<CellView>), camera: ExtractedCamera, layer: (Rect, Seq<CellView>))
    requires
        model_sound(frame),
        model_sound(layer),
    ensures
        model_sound(composite_step(frame, camera, layer)),
{
    lemma_union_covers(frame.0, layer.0);
}

/// Composing sound layers over a screen that fits gives a sound frame
/// covering the screen.
pub proof fn lemma_composed_sound(screen: Rect, layers: Seq<(ExtractedCamera, (Rect, Seq<CellView>))>)
    requires
        screen.fits(),
        forall|k: int| 0 <= k < layers.len() ==> model_sound(#[trigger] layers[k].1),
    ensures
        model_sound(composed(screen, layers)),
        forall|x: int, y: int| in_area(screen, x, y) ==> in_area(composed(screen, layers).0, x, y),
    decreases layers.len(),
{
    if layers.len() > 0 {
        let prev = composed(screen, layers.drop_last());
        lemma_composed_sound(screen, layers.drop_last());
        assert(model_sound(layers.last().1));
        lemma_step_sound(prev, layers.last().0, layers.last().1);
        lemma_union_covers(prev.0, layers.last().1.0);
    }
}

/// The camera composited last decides every cell it covers. An opaque
/// camera shows its own cell there, and the frame grows to cover it; a
/// transparent camera shows its cell where it drew something - where the
/// cell is not blank - and leaves what lay beneath elsewhere.
pub proof fn lemma_top_layer_decides(
    screen: Rect,
    layers: Seq<(ExtractedCamera, (Rect, Seq<CellView>))>,
    x: int,
    y: int,
)
    requires
        screen.fits(),
        forall|k: int| 0 <= k < layers.len() ==> model_sound(#[trigger] layers[k].1),
        layers.len() > 0,
        in_area(layers.last().1.0, x, y),
    ensures
        ({
            let top = layers.last().1;
            let beneath = composed(screen, layers.drop_last());
            let frame = composed(screen, layers);
            &&& layers.last().0.background != Background::Transparent ==> in_area(frame.0, x, y)
                && cell_at(frame, x, y) == cell_at(top, x, y)
            &&& layers.last().0.background == Background::Transparent && in_area(beneath.0, x, y)
                ==> cell_at(frame, x, y) == if cell_at(top, x, y) != blank_view() {
                cell_at(top, x, y)
            } else {
                cell_at(beneath, x, y)
            }
        }),
{
    let (camera, top) = layers.last();
    let beneath = composed(screen, layers.drop_last());
    lemma_composed_sound(screen, layers.drop_last());
    assert(model_sound(top));
    lemma_union_covers(beneath.0, top.0);
    let area = beneath.0.union_spec(top.0);
    assert(!top.0.empty_spec());
    if camera.background != Background::Transparent {
        assert(in_area(area, x, y));
        lemma_cell_lookup(area, x, y);
    } else if in_area(beneath.0, x, y) {
        lemma_cell_lookup(beneath.0, x, y);
    }
}

/// The compositing key of each layer: its camera order.
pub open spec fn layer_keys(layers: Seq<(ExtractedCamera, Buffer)>) -> Seq<(i64, u64)> {
    layers.map_values(|l: (ExtractedCamera, Buffer)| (l.0.order as i64, 0u64))
}

/// The layers in compositing order: by camera order, ties in the order
/// given.
pub open spec fn layers_in_order(layers: Seq<(ExtractedCamera, Buffer)>) -> Seq<
    (ExtractedCamera, (Rect, Seq<CellView>)),
> {
    let order = sort_order(layer_keys(layers));
    Seq::new(layers.len(), |k: int| (layers[order[k] as int].0, layers[order[k] as int].1@))
}

/// Composes every camera buffer into the frame for a terminal of `size`:
/// the frame starts blank, then layers merge in camera order (ties in the
/// order given), so a higher-order camera lands on top.
pub fn composite(size: TerminalSize, layers: &[(ExtractedCamera, Buffer)]) -> (frame: Buffer)
    requires
        forall|i: int| 0 <= i < layers@.len() ==> sound(&(#[trigger] layers@[i]).1),
    ensures
        sound(&frame),
        frame@ == composed(size.rect_spec(), layers_in_order(layers@)),
{
    let screen = size.rect();
    let mut frame = Buffer::empty(screen);
    proof {
        assert(frame@.1 =~= blank_model(screen).1);
    }
    let mut keys: Vec<(i64, u64)> = Vec::new();
    let mut i: usize = 0;
    while i < layers.len()
        invariant
            i <= layers@.len(),
            keys@ == layer_keys(layers@.take(i as int)),
        decreases layers@.len() - i,
    {
        keys.push((layers[i].0.order as i64, 0u64));
        proof {
            assert(layer_keys(layers@.take(i as int + 1)) =~= layer_keys(layers@.take(i as int)).push(
                (layers@[i as int].0.order as i64, 0u64),
            ));
        }
        i = i + 1;
    }
    proof {
        assert(layers@.take(i as int) =~= layers@);
    }
    let order = stable_sort_indices(keys.as_slice());
    let ghost sorted = layers_in_order(layers@);
    let mut k: usize = 0;
    while k < order.len()
        invariant
            k <= order@.len(),
            order@.len() == layers@.len(),
            order@ == sort_order(layer_keys(layers@)),
            stable_order(layer_keys(layers@), order@),
            sorted == layers_in_order(layers@),
            forall|i: int| 0 <= i < layers@.len() ==> sound(&(#[trigger] layers@[i]).1),
            sound(&frame),
            frame@ == composed(screen, sorted.take(k as int)),
        decreases order@.len() - k,
    {
        let idx = order[k];
        let camera = layers[idx].0;
        let layer = &layers[idx].1;
        proof {
            assert(sorted.take(k as int + 1).drop_last() =~= sorted.take(k as int));
            assert(sound(&layers@[idx as int].1));
        }
        if !layer.area.is_empty() {
            match camera.background {
                Background::Transparent => merge_transparent(&mut frame, layer),
                _ => frame.merge(layer),
            }
        }
        k = k + 1;
    }
    proof {
        assert(sorted.take(k as int) =~= sorted);
    }
    frame
}

} // verus!
