use vstd::prelude::*;

use crate::topology::{live_upto, LayerShape, NetworkShape, MAX_LAYERS_COUNT};

verus! {

pub const WINDOW_WIDTH: usize = 1366;

pub const WINDOW_HEIGHT: usize = 768;

pub const COLOUR_BACKGROUND: u32 = 0x1e1f22;

pub const COLOUR_CIRCLE: u32 = 0xce7b47;

pub const COLOUR_LINK: u32 = 0xb7babf;

/// Height of the band in which the layers' neurons are laid out.
pub const LAYER_AREA_HEIGHT: usize = WINDOW_HEIGHT * 8 / 10;

/// Space kept free above and below the neurons of a layer.
pub const PADDING_TOP: usize = LAYER_AREA_HEIGHT / 10;

/// Largest radius whose square the pixel arithmetic keeps exact.
pub const MAX_RADIUS: usize = 46340;

/// Largest centre coordinate the pixel arithmetic accepts.
pub const MAX_COORD: usize = 0x7fff_ffff;

/// A neuron drawn as a ring, centred at (`x`, `y`) in pixels.
#[derive(Clone, Debug)]
pub struct Circle {
    pub id: String,
    pub x: usize,
    pub y: usize,
    pub radius: usize,
    pub color: u32,
}

/// Index in a row-major frame buffer of the pixel at column `px`, row `py`.
pub open spec fn pixel(px: int, py: int) -> int {
    py * WINDOW_WIDTH + px
}

pub open spec fn in_window(px: int, py: int) -> bool {
    0 <= px < WINDOW_WIDTH && 0 <= py < WINDOW_HEIGHT
}

/// Whether the pixel lies in the closed disk of radius `r` about (`cx`, `cy`);
/// a negative radius gives an empty disk.
pub open spec fn in_disk(cx: int, cy: int, r: int, px: int, py: int) -> bool {
    r >= 0 && (px - cx) * (px - cx) + (py - cy) * (py - cy) <= r * r
}

/// The colour of a pixel after a circle is drawn over `before`: the inner disk,
/// two pixels narrower, is cleared to the background, the ring around it takes
/// the circle's colour, and the rest is left alone.
pub open spec fn ring_pixel(c: Circle, px: int, py: int, before: u32) -> u32 {
    if in_disk(c.x as int, c.y as int, c.radius - 2, px, py) {
        COLOUR_BACKGROUND
    } else if in_disk(c.x as int, c.y as int, c.radius as int, px, py) {
        c.color
    } else {
        before
    }
}

proof fn lemma_pixel_distinct(px: int, py: int, qx: int, qy: int)
    requires
        in_window(px, py),
        in_window(qx, qy),
        px != qx || py != qy,
    ensures
        pixel(px, py) != pixel(qx, qy),
{
    if py == qy {
    } else if py < qy {
        assert(py * 1366 + 1366 <= qy * 1366) by (nonlinear_arith)
            requires
                py < qy,
        ;
    } else {
        assert(qy * 1366 + 1366 <= py * 1366) by (nonlinear_arith)
            requires
                qy < py,
        ;
    }
}

proof fn lemma_disk_bounds(cx: int, cy: int, r: int, px: int, py: int)
    requires
        in_disk(cx, cy, r, px, py),
    ensures
        -r <= px - cx <= r,
        -r <= py - cy <= r,
{
    let dx = px - cx;
    let dy = py - cy;
    assert(dx * dx <= r * r && dy * dy <= r * r) by (nonlinear_arith)
        requires
            dx * dx + dy * dy <= r * r,
    ;
    assert(-r <= dx <= r) by (nonlinear_arith)
        requires
            dx * dx <= r * r,
            r >= 0,
    ;
    assert(-r <= dy <= r) by (nonlinear_arith)
        requires
            dy * dy <= r * r,
            r >= 0,
    ;
}

/// Paints every window pixel of the closed disk of radius `r` about (`cx`, `cy`)
/// with `color`, and leaves every other pixel as it was.
fn fill_disk(buffer: &mut Vec<u32>, cx: i64, cy: i64, r: i64, color: u32)
    requires
        old(buffer)@.len() == WINDOW_WIDTH * WINDOW_HEIGHT,
        0 <= cx <= MAX_COORD,
        0 <= cy <= MAX_COORD,
        -2 <= r <= MAX_RADIUS,
    ensures
        final(buffer)@.len() == old(buffer)@.len(),
        forall|px: int, py: int|
            in_window(px, py) ==> #[trigger] final(buffer)@[pixel(px, py)] == if in_disk(
                cx as int,
                cy as int,
                r as int,
                px,
                py,
            ) {
                color
            } else {
                old(buffer)@[pixel(px, py)]
            },
{
    let ghost before = buffer@;
    if r < 0 {
        return;
    }
    assert forall|px: int, py: int| in_window(px, py) implies #[trigger] buffer@[pixel(px, py)]
        == if in_disk(cx as int, cy as int, r as int, px, py) && py - cy < -r {
        color
    } else {
        before[pixel(px, py)]
    } by {
        if in_disk(cx as int, cy as int, r as int, px, py) {
            lemma_disk_bounds(cx as int, cy as int, r as int, px, py);
        }
    }
    let mut dy: i64 = -r;
    while dy <= r
        invariant
            -r <= dy <= r + 1,
            r >= 0,
            0 <= cx <= MAX_COORD,
            0 <= cy <= MAX_COORD,
            -2 <= r <= MAX_RADIUS,
            buffer@.len() == before.len(),
            before.len() == WINDOW_WIDTH * WINDOW_HEIGHT,
            forall|px: int, py: int|
                in_window(px, py) ==> #[trigger] buffer@[pixel(px, py)] == if in_disk(
                    cx as int,
                    cy as int,
                    r as int,
                    px,
                    py,
                ) && py - cy < dy {
                    color
                } else {
                    before[pixel(px, py)]
                },
        decreases r + 1 - dy,
    {
        assert forall|px: int, py: int| in_window(px, py) implies #[trigger] buffer@[pixel(px, py)]
            == if in_disk(cx as int, cy as int, r as int, px, py) && (py - cy < dy || (py - cy
            == dy && px - cx < -r)) {
            color
        } else {
            before[pixel(px, py)]
        } by {
            if in_disk(cx as int, cy as int, r as int, px, py) {
                lemma_disk_bounds(cx as int, cy as int, r as int, px, py);
            }
        }
        let mut dx: i64 = -r;
        while dx <= r
            invariant
                -r <= dx <= r + 1,
                -r <= dy <= r,
                r >= 0,
                0 <= cx <= MAX_COORD,
                0 <= cy <= MAX_COORD,
                -2 <= r <= MAX_RADIUS,
                buffer@.len() == before.len(),
                before.len() == WINDOW_WIDTH * WINDOW_HEIGHT,
                forall|px: int, py: int|
                    in_window(px, py) ==> #[trigger] buffer@[pixel(px, py)] == if in_disk(
                        cx as int,
                        cy as int,
                        r as int,
                        px,
                        py,
                    ) && (py - cy < dy || (py - cy == dy && px - cx < dx)) {
                        color
                    } else {
                        before[pixel(px, py)]
                    },
            decreases r + 1 - dx,
        {
            assert(0 <= dx * dx <= 2147395600 && 0 <= dy * dy <= 2147395600 && 0 <= r * r
                <= 2147395600) by (nonlinear_arith)
                requires
                    -r <= dx <= r,
                    -r <= dy <= r,
                    0 <= r <= 46340,
            ;
            let inside = dx * dx + dy * dy <= r * r;
            let qx = cx + dx;
            let qy = cy + dy;
            if inside && qx >= 0 && qy >= 0 && qx < WINDOW_WIDTH as i64 && qy < WINDOW_HEIGHT as i64 {
                let ghost mid = buffer@;
                let i = (qy * (WINDOW_WIDTH as i64) + qx) as usize;
                assert(i as int == pixel(qx as int, qy as int));
                assert(i < WINDOW_WIDTH * WINDOW_HEIGHT) by (nonlinear_arith)
                    requires
                        i as int == qy * 1366 + qx,
                        0 <= qx < 1366,
                        0 <= qy < 768,
                ;
                buffer.set(i, color);
                assert forall|px: int, py: int| in_window(px, py) implies #[trigger] buffer@[pixel(
                    px,
                    py,
                )] == if in_disk(cx as int, cy as int, r as int, px, py) && (py - cy < dy || (py
                    - cy == dy && px - cx < dx + 1)) {
                    color
                } else {
                    before[pixel(px, py)]
                } by {
                    if px != qx || py != qy {
                        lemma_pixel_distinct(px, py, qx as int, qy as int);
                        assert(buffer@[pixel(px, py)] == mid[pixel(px, py)]);
                    }
                }
            } else {
                assert forall|px: int, py: int| in_window(px, py) implies #[trigger] buffer@[pixel(
                    px,
                    py,
                )] == if in_disk(cx as int, cy as int, r as int, px, py) && (py - cy < dy || (py
                    - cy == dy && px - cx < dx + 1)) {
                    color
                } else {
                    before[pixel(px, py)]
                } by {
                    if px == qx && py == qy {
                        assert(!in_disk(cx as int, cy as int, r as int, px, py));
                    }
                }
            }
            dx = dx + 1;
        }
        assert forall|px: int, py: int| in_window(px, py) implies #[trigger] buffer@[pixel(
            px,
            py,
        )] == if in_disk(cx as int, cy as int, r as int, px, py) && py - cy < dy + 1 {
            color
        } else {
            before[pixel(px, py)]
        } by {
            if in_disk(cx as int, cy as int, r as int, px, py) {
                lemma_disk_bounds(cx as int, cy as int, r as int, px, py);
            }
        }
        dy = dy + 1;
    }
    assert forall|px: int, py: int| in_window(px, py) implies #[trigger] buffer@[pixel(px, py)]
        == if in_disk(cx as int, cy as int, r as int, px, py) {
        color
    } else {
        before[pixel(px, py)]
    } by {
        if in_disk(cx as int, cy as int, r as int, px, py) {
            lemma_disk_bounds(cx as int, cy as int, r as int, px, py);
        }
    }
}

/// Draws `circle` into a full-window frame buffer as a ring: the disk of its
/// radius in its colour, then the disk two pixels narrower in the background
/// colour. Pixels outside the window are skipped.
pub fn draw_circle(buffer: &mut Vec<u32>, circle: &Circle)
    requires
        old(buffer)@.len() == WINDOW_WIDTH * WINDOW_HEIGHT,
        circle.x <= MAX_COORD,
        circle.y <= MAX_COORD,
        circle.radius <= MAX_RADIUS,
    ensures
        final(buffer)@.len() == old(buffer)@.len(),
        forall|px: int, py: int|
            in_window(px, py) ==> #[trigger] final(buffer)@[pixel(px, py)] == ring_pixel(
                *circle,
                px,
                py,
                old(buffer)@[pixel(px, py)],
            ),
{
    let cx = circle.x as i64;
    let cy = circle.y as i64;
    let r = circle.radius as i64;
    let ghost before = buffer@;
    fill_disk(buffer, cx, cy, r, circle.color);
    let ghost mid = buffer@;
    fill_disk(buffer, cx, cy, r - 2, COLOUR_BACKGROUND);
    assert forall|px: int, py: int| in_window(px, py) implies #[trigger] buffer@[pixel(px, py)]
        == ring_pixel(*circle, px, py, before[pixel(px, py)]) by {
        assert(mid[pixel(px, py)] == if in_disk(cx as int, cy as int, r as int, px, py) {
            circle.color
        } else {
            before[pixel(px, py)]
        });
    }
}

/// A circle as plain values: id, centre column and row, radius and colour.
pub open spec fn circle_view(c: Circle) -> (Seq<char>, usize, usize, usize, u32) {
    (c.id@, c.x, c.y, c.radius, c.color)
}

pub open spec fn live_count(layer: LayerShape) -> int {
    live_upto(layer, 4).len() as int
}

/// Whether each of the first `l` layers holds a real neuron: drawing stops at
/// the first layer that holds none.
pub open spec fn all_drawn_upto(t: NetworkShape, l: int) -> bool {
    forall|j: int| 0 <= j < l ==> live_count(#[trigger] t.layers@[j]) > 0
}

pub open spec fn column_width(t: NetworkShape) -> int {
    WINDOW_WIDTH as int / t.layers_count as int
}

/// The circles of layer `l`: one per real neuron, in slot order, in a column
/// `layer_width` wide, spread evenly down the layer band.
pub open spec fn layer_circles(t: NetworkShape, l: int) -> Seq<(Seq<char>, usize, usize, usize, u32)> {
    let layer = t.layers@[l];
    let lw = column_width(t);
    let space = (LAYER_AREA_HEIGHT - 2 * PADDING_TOP) / live_count(layer);
    live_upto(layer, 4).map(
        |j: int, slot: usize|
            (
                layer.neurons@[slot as int].id@,
                (lw / 2 + l * lw) as usize,
                (PADDING_TOP + space / 2 + j * space) as usize,
                (lw / 6) as usize,
                COLOUR_CIRCLE,
            ),
    )
}

/// The circles of the first `l` layers, up to the first layer without a real neuron.
pub open spec fn drawn_upto(t: NetworkShape, l: int) -> Seq<(Seq<char>, usize, usize, usize, u32)>
    decreases l,
{
    if l <= 0 {
        Seq::empty()
    } else if all_drawn_upto(t, l) {
        drawn_upto(t, l - 1) + layer_circles(t, l - 1)
    } else {
        drawn_upto(t, l - 1)
    }
}

/// Lays the network out: one column per layer in use, one circle per real
/// neuron, stopping at the first layer that holds no real neuron.
pub fn build_view(nn: &NetworkShape) -> (r: Vec<Circle>)
    requires
        nn.layers_count >= 1,
    ensures
        r@.map_values(|c: Circle| circle_view(c)) == drawn_upto(*nn, MAX_LAYERS_COUNT as int),
{
    let layer_width = WINDOW_WIDTH / nn.layers_count;
    let band = LAYER_AREA_HEIGHT - 2 * PADDING_TOP;
    let circle_radius = layer_width / 6;
    let mut x = layer_width / 2;
    let mut circles: Vec<Circle> = Vec::new();
    let mut stopped = false;
    let mut l: usize = 0;
    while l < MAX_LAYERS_COUNT
        invariant
            0 <= l <= MAX_LAYERS_COUNT,
            nn.layers_count >= 1,
            layer_width as int == column_width(*nn),
            layer_width <= WINDOW_WIDTH,
            circle_radius as int == layer_width / 6,
            band == LAYER_AREA_HEIGHT - 2 * PADDING_TOP,
            !stopped ==> x as int == layer_width / 2 + l * layer_width,
            !stopped == all_drawn_upto(*nn, l as int),
            circles@.map_values(|c: Circle| circle_view(c)) == drawn_upto(*nn, l as int),
        decreases MAX_LAYERS_COUNT - l,
    {
        let ghost before = circles@.map_values(|c: Circle| circle_view(c));
        if !stopped {
            let layer = &nn.layers[l];
            let live = layer.live_slots();
            proof {
                live_upto_bounds(*layer, 4);
            }
            if live.len() == 0 {
                stopped = true;
                assert(!all_drawn_upto(*nn, l + 1));
            } else {
                assert(all_drawn_upto(*nn, l + 1));
                let space = band / live.len();
                let ghost expected = layer_circles(*nn, l as int);
                let mut y = PADDING_TOP + space / 2;
                let mut j: usize = 0;
                while j < live.len()
                    invariant
                        0 <= j <= live@.len(),
                        live@ == live_upto(*layer, 4),
                        *layer == nn.layers@[l as int],
                        forall|i: int| 0 <= i < live@.len() ==> #[trigger] live@[i] < 4,
                        live@.len() <= 4,
                        space as int == (LAYER_AREA_HEIGHT - 2 * PADDING_TOP) / live_count(*layer),
                        space <= band,
                        band == LAYER_AREA_HEIGHT - 2 * PADDING_TOP,
                        y as int == PADDING_TOP + space / 2 + j * space,
                        x as int == layer_width / 2 + l * layer_width,
                        l < MAX_LAYERS_COUNT,
                        layer_width as int == column_width(*nn),
                        layer_width <= WINDOW_WIDTH,
                        circle_radius as int == layer_width / 6,
                        expected == layer_circles(*nn, l as int),
                        circles@.map_values(|c: Circle| circle_view(c)) == before + expected.take(
                            j as int,
                        ),
                    decreases live@.len() - j,
                {
                    let slot = live[j];
                    let c = Circle {
                        id: layer.neurons[slot].id.clone(),
                        x,
                        y,
                        radius: circle_radius,
                        color: COLOUR_CIRCLE,
                    };
                    let ghost old_view = circles@;
                    circles.push(c);
                    assert(circle_view(c) == expected[j as int]);
                    assert(circles@.map_values(|c: Circle| circle_view(c)) =~= old_view.map_values(
                        |c: Circle| circle_view(c),
                    ).push(circle_view(c)));
                    assert(expected.take(j + 1) =~= expected.take(j as int).push(expected[j as int]));
                    assert(y + space <= PADDING_TOP + space / 2 + 4 * space) by (nonlinear_arith)
                        requires
                            y as int == PADDING_TOP + space / 2 + j * space,
                            j < 4,
                            space >= 0,
                    ;
                    assert(4 * space <= 4 * 492) by (nonlinear_arith)
                        requires
                            0 <= space <= 492,
                    ;
                    assert((j + 1) * space == j * space + space) by (nonlinear_arith);
                    y = y + space;
                    j = j + 1;
                }
                assert(expected.take(live@.len() as int) =~= expected);
                assert(x + layer_width <= layer_width / 2 + 7 * layer_width) by (nonlinear_arith)
                    requires
                        x as int == layer_width / 2 + l * layer_width,
                        l < 7,
                        layer_width >= 0,
                ;
                assert((l + 1) * layer_width == l * layer_width + layer_width) by (nonlinear_arith);
                x = x + layer_width;
            }
        } else {
            assert(!all_drawn_upto(*nn, l + 1));
        }
        l = l + 1;
    }
    circles
}

proof fn live_upto_bounds(layer: LayerShape, i: int)
    requires
        0 <= i <= 4,
    ensures
        live_upto(layer, i).len() <= i,
        forall|k: int| 0 <= k < live_upto(layer, i).len() ==> #[trigger] live_upto(layer, i)[k] < i,
    decreases i,
{
    if i > 0 {
        live_upto_bounds(layer, i - 1);
    }
}

/// The colour of a pixel after `circles` are drawn in turn over the background.
pub open spec fn painted(circles: Seq<Circle>, px: int, py: int) -> u32
    decreases circles.len(),
{
    if circles.len() == 0 {
        COLOUR_BACKGROUND
    } else {
        ring_pixel(circles.last(), px, py, painted(circles.drop_last(), px, py))
    }
}

pub open spec fn drawable(c: Circle) -> bool {
    c.x <= MAX_COORD && c.y <= MAX_COORD && c.radius <= MAX_RADIUS
}

/// A full-window frame buffer in the background colour with every circle drawn
/// on it, in order.
pub fn build_backgroud(circles: &Vec<Circle>) -> (r: Vec<u32>)
    requires
        forall|i: int| 0 <= i < circles@.len() ==> drawable(#[trigger] circles@[i]),
    ensures
        r@.len() == WINDOW_WIDTH * WINDOW_HEIGHT,
        forall|px: int, py: int|
            in_window(px, py) ==> #[trigger] r@[pixel(px, py)] == painted(circles@, px, py),
{
    let mut buffer: Vec<u32> = Vec::new();
    let mut i: usize = 0;
    while i < WINDOW_WIDTH * WINDOW_HEIGHT
        invariant
            0 <= i <= WINDOW_WIDTH * WINDOW_HEIGHT,
            buffer@.len() == i,
            forall|k: int| 0 <= k < i ==> #[trigger] buffer@[k] == COLOUR_BACKGROUND,
        decreases WINDOW_WIDTH * WINDOW_HEIGHT - i,
    {
        buffer.push(COLOUR_BACKGROUND);
        i = i + 1;
    }
    let mut n: usize = 0;
    while n < circles.len()
        invariant
            0 <= n <= circles@.len(),
            buffer@.len() == WINDOW_WIDTH * WINDOW_HEIGHT,
            forall|i: int| 0 <= i < circles@.len() ==> drawable(#[trigger] circles@[i]),
            forall|px: int, py: int|
                in_window(px, py) ==> #[trigger] buffer@[pixel(px, py)] == painted(
                    circles@.take(n as int),
                    px,
                    py,
                ),
        decreases circles@.len() - n,
    {
        let ghost before = buffer@;
        assert(drawable(circles@[n as int]));
        draw_circle(&mut buffer, &circles[n]);
        assert forall|px: int, py: int| in_window(px, py) implies #[trigger] buffer@[pixel(px, py)]
            == painted(circles@.take(n + 1), px, py) by {
            let t = circles@.take(n + 1);
            assert(t.drop_last() =~= circles@.take(n as int));
            assert(t.last() == circles@[n as int]);
        }
        n = n + 1;
    }
    assert(circles@.take(circles@.len() as int) =~= circles@);
    buffer
}

} // verus!
