//! Drawing on the panel: shapes are painted one over the other, and what comes
//! out is a list of filled rectangles for the display controller.

use vstd::prelude::*;

use crate::text::{ascii_upper, chars_of, to_ascii_upper};

verus! {

pub const WIDTH: i32 = 135;

pub const HEIGHT: i32 = 240;

/// Where the panel lies in the controller's memory.
pub const X_OFFSET: u16 = 52;

pub const Y_OFFSET: u16 = 40;

/// Whether a coordinate or a length can be handled.
pub open spec fn fits(n: int) -> bool {
    i32::MIN <= n <= i32::MAX
}

/// A colour with five, six and five bits to red, green and blue.
pub open spec fn rgb565_of(r: int, g: int, b: int) -> int {
    r / 8 * 2048 + g / 4 * 32 + b / 8
}

pub fn rgb565(r: u8, g: u8, b: u8) -> (color: u16)
    ensures
        color == rgb565_of(r as int, g as int, b as int),
{
    (r as u16) / 8 * 2048 + (g as u16) / 4 * 32 + (b as u16) / 8
}

/// A filled rectangle on the panel: from `x0`, `y0` up to but not including `x1`,
/// `y1`.
#[derive(Debug, Clone, Copy, PartialEq, Eq, Structural)]
pub struct Fill {
    pub x0: u16,
    pub y0: u16,
    pub x1: u16,
    pub y1: u16,
    pub color: u16,
}

pub open spec fn on_panel(x: int, y: int) -> bool {
    0 <= x < WIDTH && 0 <= y < HEIGHT
}

/// Something to paint: the points it covers, and its colour.
pub ghost struct Layer {
    pub shape: spec_fn(int, int) -> bool,
    pub color: u16,
}

/// What has been painted so far: the colour of each point, or nothing where it has
/// been left alone.
pub open spec fn blank() -> spec_fn(int, int) -> Option<u16> {
    |x: int, y: int| None
}

pub open spec fn painted(image: spec_fn(int, int) -> Option<u16>, layer: Layer) -> spec_fn(
    int,
    int,
) -> Option<u16> {
    |x: int, y: int|
        if on_panel(x, y) && (layer.shape)(x, y) {
            Some(layer.color)
        } else {
            image(x, y)
        }
}

/// `image` with `layers` painted over it, in order.
pub open spec fn layered(image: spec_fn(int, int) -> Option<u16>, layers: Seq<Layer>) -> spec_fn(
    int,
    int,
) -> Option<u16>
    decreases layers.len(),
{
    if layers.len() == 0 {
        image
    } else {
        painted(layered(image, layers.drop_last()), layers.last())
    }
}

/// Painting two lists of layers one after the other is painting them together.
pub broadcast proof fn law_layers_compose(
    image: spec_fn(int, int) -> Option<u16>,
    a: Seq<Layer>,
    b: Seq<Layer>,
)
    ensures
        #[trigger] layered(image, a + b) == layered(layered(image, a), b),
    decreases b.len(),
{
    if b.len() == 0 {
        assert(a + b =~= a);
    } else {
        law_layers_compose(image, a, b.drop_last());
        assert((a + b).drop_last() =~= a + b.drop_last());
    }
}

pub broadcast proof fn lemma_single_layer(image: spec_fn(int, int) -> Option<u16>, layer: Layer)
    ensures
        #[trigger] layered(image, seq![layer]) == painted(image, layer),
{
    assert(seq![layer].drop_last() =~= Seq::<Layer>::empty());
    reveal_with_fuel(layered, 2);
}

pub open spec fn rect(x: int, y: int, w: int, h: int) -> spec_fn(int, int) -> bool {
    |px: int, py: int| x <= px < x + w && y <= py < y + h
}

pub open spec fn rect_layer(x: int, y: int, w: int, h: int, color: u16) -> Layer {
    Layer { shape: rect(x, y, w, h), color }
}

/// A disc: the points at most `radius` away from the middle.
pub open spec fn disc(cx: int, cy: int, radius: int) -> spec_fn(int, int) -> bool {
    |px: int, py: int|
        radius >= 0 && (px - cx) * (px - cx) + (py - cy) * (py - cy) <= radius * radius
}

pub open spec fn disc_layer(cx: int, cy: int, radius: int, color: u16) -> Layer {
    Layer { shape: disc(cx, cy, radius), color }
}

impl Fill {
    pub open spec fn layer(self) -> Layer {
        rect_layer(
            self.x0 as int,
            self.y0 as int,
            self.x1 - self.x0,
            self.y1 - self.y0,
            self.color,
        )
    }

    /// The rectangle is not empty and lies on the panel.
    pub open spec fn wf(self) -> bool {
        self.x0 < self.x1 <= WIDTH && self.y0 < self.y1 <= HEIGHT
    }

    /// The columns of the rectangle, as the controller wants them.
    pub fn column_window(&self) -> (bytes: Vec<u8>)
        requires
            self.wf(),
        ensures
            bytes@ == window_bytes(self.x0 + X_OFFSET, self.x1 - 1 + X_OFFSET),
    {
        window(self.x0 + X_OFFSET, self.x1 - 1 + X_OFFSET)
    }

    /// Its rows.
    pub fn row_window(&self) -> (bytes: Vec<u8>)
        requires
            self.wf(),
        ensures
            bytes@ == window_bytes(self.y0 + Y_OFFSET, self.y1 - 1 + Y_OFFSET),
    {
        window(self.y0 + Y_OFFSET, self.y1 - 1 + Y_OFFSET)
    }

    /// One row of its points: each takes two bytes, the high one first.
    pub fn row_bytes(&self) -> (bytes: Vec<u8>)
        requires
            self.wf(),
        ensures
            bytes@ == Seq::new(
                2 * (self.x1 - self.x0) as nat,
                |i: int|
                    if i % 2 == 0 {
                        (self.color / 256) as u8
                    } else {
                        (self.color % 256) as u8
                    },
            ),
    {
        let width: usize = (self.x1 - self.x0) as usize;
        let mut bytes: Vec<u8> = Vec::new();
        let mut i: usize = 0;
        while i < width
            invariant
                self.wf(),
                width == self.x1 - self.x0,
                i <= width,
                bytes@ == Seq::new(
                    2 * i as nat,
                    |i: int|
                        if i % 2 == 0 {
                            (self.color / 256) as u8
                        } else {
                            (self.color % 256) as u8
                        },
                ),
            decreases width - i,
        {
            bytes.push((self.color / 256) as u8);
            bytes.push((self.color % 256) as u8);
            i += 1;
            assert(bytes@ =~= Seq::new(
                2 * i as nat,
                |i: int|
                    if i % 2 == 0 {
                        (self.color / 256) as u8
                    } else {
                        (self.color % 256) as u8
                    },
            ));
        }
        bytes
    }

    /// How many rows it has.
    pub fn rows(&self) -> (rows: u16)
        requires
            self.wf(),
        ensures
            rows == self.y1 - self.y0,
    {
        self.y1 - self.y0
    }
}

/// The first and the last column or row, each with the high byte first.
pub open spec fn window_bytes(first: int, last: int) -> Seq<u8> {
    seq![
        (first / 256) as u8,
        (first % 256) as u8,
        (last / 256) as u8,
        (last % 256) as u8,
    ]
}

fn window(first: u16, last: u16) -> (bytes: Vec<u8>)
    ensures
        bytes@ == window_bytes(first as int, last as int),
{
    let mut bytes: Vec<u8> = Vec::new();
    bytes.push((first / 256) as u8);
    bytes.push((first % 256) as u8);
    bytes.push((last / 256) as u8);
    bytes.push((last % 256) as u8);
    assert(bytes@ =~= window_bytes(first as int, last as int));
    bytes
}

pub open spec fn fill_layers(fills: Seq<Fill>) -> Seq<Layer> {
    Seq::new(fills.len(), |i: int| fills[i].layer())
}

/// Rectangles to be filled, in order.
#[derive(Debug)]
pub struct Canvas {
    fills: Vec<Fill>,
}

impl View for Canvas {
    type V = spec_fn(int, int) -> Option<u16>;

    closed spec fn view(&self) -> spec_fn(int, int) -> Option<u16> {
        layered(blank(), fill_layers(self.fills@))
    }
}

impl Canvas {
    pub closed spec fn wf(self) -> bool {
        forall|i: int| 0 <= i < self.fills@.len() ==> (#[trigger] self.fills@[i]).wf()
    }

    pub fn new() -> (canvas: Canvas)
        ensures
            canvas.wf(),
            canvas@ == blank(),
    {
        let canvas = Canvas { fills: Vec::new() };
        assert(fill_layers(canvas.fills@) =~= Seq::<Layer>::empty());
        canvas
    }

    /// Hands the rectangles out and starts over.
    pub fn take(&mut self) -> (fills: Vec<Fill>)
        requires
            old(self).wf(),
        ensures
            final(self).wf(),
            final(self)@ == blank(),
            layered(blank(), fill_layers(fills@)) == old(self)@,
            forall|i: int| 0 <= i < fills@.len() ==> (#[trigger] fills@[i]).wf(),
    {
        let mut fills: Vec<Fill> = Vec::new();
        std::mem::swap(&mut fills, &mut self.fills);
        assert(fill_layers(self.fills@) =~= Seq::<Layer>::empty());
        fills
    }

    /// Fills the part of a rectangle that lies on the panel.
    pub fn fill_rect(&mut self, x: i32, y: i32, w: i32, h: i32, color: u16)
        requires
            old(self).wf(),
            fits(x + w),
            fits(y + h),
        ensures
            final(self).wf(),
            final(self)@ == painted(
                old(self)@,
                rect_layer(x as int, y as int, w as int, h as int, color),
            ),
    {
        let x0: i32 = clamp(x, WIDTH);
        let y0: i32 = clamp(y, HEIGHT);
        let x1: i32 = clamp(x + w, WIDTH);
        let y1: i32 = clamp(y + h, HEIGHT);
        let ghost before = self@;
        let ghost layer = rect_layer(x as int, y as int, w as int, h as int, color);
        if x1 <= x0 || y1 <= y0 {
            assert(painted(before, layer) =~= before);
            return;
        }
        let fill = Fill { x0: x0 as u16, y0: y0 as u16, x1: x1 as u16, y1: y1 as u16, color };
        let ghost fills = self.fills@;
        self.fills.push(fill);
        proof {
            let layers = fill_layers(self.fills@);
            assert(layers.drop_last() =~= fill_layers(fills));
            assert(layers.last() == fill.layer());
            assert(painted(before, fill.layer()) =~= painted(before, layer));
            assert forall|i: int| 0 <= i < self.fills@.len() implies (
            #[trigger] self.fills@[i]).wf() by {
                if i < fills.len() {
                    assert(self.fills@[i] == fills[i]);
                }
            }
        }
    }

    pub fn fill_circle(&mut self, cx: i32, cy: i32, radius: i32, color: u16)
        requires
            old(self).wf(),
            -46_340 <= radius <= 46_339,
            radius >= 0 ==> fits(cx - radius) && fits(cx + radius + 1),
            radius >= 0 ==> fits(cy - radius) && fits(cy + radius + 1),
        ensures
            final(self).wf(),
            final(self)@ == painted(
                old(self)@,
                disc_layer(cx as int, cy as int, radius as int, color),
            ),
    {
        let ghost before = self@;
        if radius < 0 {
            let ghost none = disc_layer(cx as int, cy as int, radius as int, color);
            assert(before =~= painted(before, none));
            return;
        }
        assert(radius * radius <= 2_147_302_921) by (nonlinear_arith)
            requires
                0 <= radius <= 46_339,
        ;
        let r2: i32 = radius * radius;
        let mut dy: i32 = -radius;
        proof {
            assert forall|px: int, py: int| py < cy - radius implies !(#[trigger] disc(
                cx as int,
                cy as int,
                radius as int,
            )(px, py)) by {
                lemma_outside_rows(px - cx, py - cy, radius as int);
            }
            assert(before =~= painted(
                before,
                disc_rows(cx as int, cy as int, radius as int, cy + dy, color),
            ));
        }
        while dy <= radius
            invariant
                self.wf(),
                0 <= radius <= 46_339,
                fits(cx - radius) && fits(cx + radius + 1),
                fits(cy - radius) && fits(cy + radius + 1),
                r2 == radius * radius,
                r2 <= 2_147_302_921,
                -radius <= dy <= radius + 1,
                self@ == painted(
                    before,
                    disc_rows(cx as int, cy as int, radius as int, cy + dy, color),
                ),
            decreases radius + 1 - dy,
        {
            assert(0 <= dy * dy <= r2) by (nonlinear_arith)
                requires
                    -radius <= dy <= radius,
                    r2 == radius * radius,
            ;
            let mut dx: i32 = 0;
            assert((0 + 1) * (0 + 1) == 1);
            while (dx + 1) * (dx + 1) + dy * dy <= r2
                invariant
                    0 <= dx <= radius <= 46_339,
                    -radius <= dy <= radius,
                    r2 == radius * radius,
                    r2 <= 2_147_302_921,
                    0 <= dy * dy <= r2,
                    0 <= (dx + 1) * (dx + 1),
                    (dx + 1) * (dx + 1) + dy * dy <= r2 + 2 * radius + 1,
                    dx * dx + dy * dy <= r2,
                decreases radius - dx,
            {
                dx = dx + 1;
                assert(dx <= radius) by (nonlinear_arith)
                    requires
                        dx >= 0,
                        dx * dx + dy * dy <= r2,
                        0 <= dy * dy,
                        r2 == radius * radius,
                        radius >= 0,
                ;
                assert((dx + 1) * (dx + 1) == dx * dx + 2 * dx + 1) by (nonlinear_arith);
            }
            self.fill_rect(cx - dx, cy + dy, dx * 2 + 1, 1, color);
            proof {
                let row = rect_layer(cx - dx, cy + dy, dx * 2 + 1, 1, color);
                let now = disc_rows(cx as int, cy as int, radius as int, cy + dy, color);
                let next = disc_rows(cx as int, cy as int, radius as int, cy + dy + 1, color);
                assert forall|px: int, py: int| #[trigger] (next.shape)(px, py) == ((now.shape)(
                    px,
                    py,
                ) || (row.shape)(px, py)) by {
                    if py == cy + dy {
                        lemma_row_of_disc(px - cx, dy as int, dx as int, r2 as int);
                    }
                }
                assert(painted(painted(before, now), row) =~= painted(before, next));
            }
            dy = dy + 1;
        }
        proof {
            let whole = disc_layer(cx as int, cy as int, radius as int, color);
            let rows = disc_rows(cx as int, cy as int, radius as int, cy + radius + 1, color);
            assert forall|px: int, py: int| #[trigger] (whole.shape)(px, py) == (rows.shape)(
                px,
                py,
            ) by {
                if py > cy + radius {
                    lemma_outside_rows(px - cx, py - cy, radius as int);
                }
            }
            assert(painted(before, whole) =~= painted(before, rows));
        }
    }

    /// Draws a character with its upper left corner at `x`, `y`; neighbouring
    /// points of a row are filled together.
    pub fn draw_char(&mut self, ch: char, x: i32, y: i32, scale: i32, color: u16)
        requires
            old(self).wf(),
            fits(7 * scale),
            fits(x + 5 * scale),
            fits(y + 7 * scale),
        ensures
            final(self).wf(),
            final(self)@ == painted(
                old(self)@,
                char_layer(ch, x as int, y as int, scale as int, color),
            ),
    {
        let ghost before = self@;
        if scale <= 0 {
            let ghost none = char_layer(ch, x as int, y as int, scale as int, color);
            assert(before =~= painted(before, none));
            return;
        }
        let mut row: i32 = 0;
        assert(before =~= painted(
            before,
            partial_char(ch, x as int, y as int, scale as int, color, 0, 0),
        ));
        while row < 7
            invariant
                self.wf(),
                0 <= row <= 7,
                1 <= scale,
                fits(7 * scale),
                fits(x + 5 * scale),
                fits(y + 7 * scale),
                self@ == painted(
                    before,
                    partial_char(ch, x as int, y as int, scale as int, color, row as int, 0),
                ),
            decreases 7 - row,
        {
            proof {
                lemma_times(row as int, scale as int);
            }
            let mut run_start: i32 = -1;
            let mut col: i32 = 0;
            while col < 5
                invariant
                    self.wf(),
                    0 <= row < 7,
                    0 <= col <= 5,
                    -1 <= run_start < col,
                    1 <= scale,
                    fits(7 * scale),
                    fits(x + 5 * scale),
                    fits(y + 7 * scale),
                    run_start >= 0 ==> forall|c: int|
                        run_start <= c < col ==> #[trigger] lit(ch, c, row as int),
                    self@ == painted(
                        before,
                        partial_char(
                            ch,
                            x as int,
                            y as int,
                            scale as int,
                            color,
                            row as int,
                            if run_start >= 0 {
                                run_start as int
                            } else {
                                col as int
                            },
                        ),
                    ),
                decreases 5 - col,
            {
                let filled = is_lit(ch, col as usize, row as usize);
                if filled {
                    if run_start < 0 {
                        run_start = col;
                    }
                } else {
                    if run_start >= 0 {
                        self.fill_run(ch, x, y, scale, color, row, run_start, col, Ghost(before));
                        run_start = -1;
                    }
                    proof {
                        lemma_unlit_cell(
                            before,
                            ch,
                            x as int,
                            y as int,
                            scale as int,
                            color,
                            row as int,
                            col as int,
                        );
                    }
                }
                col = col + 1;
            }
            if run_start >= 0 {
                self.fill_run(ch, x, y, scale, color, row, run_start, 5, Ghost(before));
            }
            proof {
                lemma_next_row(
                    before,
                    ch,
                    x as int,
                    y as int,
                    scale as int,
                    color,
                    row as int,
                );
            }
            row = row + 1;
        }
        proof {
            let whole = char_layer(ch, x as int, y as int, scale as int, color);
            let rows = partial_char(ch, x as int, y as int, scale as int, color, 7, 0);
            assert(painted(before, whole) =~= painted(before, rows));
        }
    }

    /// Fills the points `start` up to `end` of a row of a character, all of which
    /// are lit.
    fn fill_run(
        &mut self,
        ch: char,
        x: i32,
        y: i32,
        scale: i32,
        color: u16,
        row: i32,
        start: i32,
        end: i32,
        before: Ghost<spec_fn(int, int) -> Option<u16>>,
    )
        requires
            old(self).wf(),
            0 <= row < 7,
            0 <= start < end <= 5,
            1 <= scale,
            fits(7 * scale),
            fits(x + 5 * scale),
            fits(y + 7 * scale),
            forall|c: int| start <= c < end ==> #[trigger] lit(ch, c, row as int),
            old(self)@ == painted(
                before@,
                partial_char(
                    ch,
                    x as int,
                    y as int,
                    scale as int,
                    color,
                    row as int,
                    start as int,
                ),
            ),
        ensures
            final(self).wf(),
            final(self)@ == painted(
                before@,
                partial_char(ch, x as int, y as int, scale as int, color, row as int, end as int),
            ),
    {
        proof {
            lemma_times(row as int, scale as int);
            lemma_times(start as int, scale as int);
            lemma_times(end - start, scale as int);
            lemma_times(end as int, scale as int);
            assert(start * scale + (end - start) * scale == end * scale) by (nonlinear_arith);
        }
        self.fill_rect(x + start * scale, y + row * scale, (end - start) * scale, scale, color);
        proof {
            let s = scale as int;
            let run = rect_layer(
                x + start * scale,
                y + row * scale,
                (end - start) * scale,
                s,
                color,
            );
            let now = partial_char(ch, x as int, y as int, s, color, row as int, start as int);
            let next = partial_char(ch, x as int, y as int, s, color, row as int, end as int);
            assert forall|px: int, py: int| #[trigger] (next.shape)(px, py) == ((now.shape)(px, py)
                || (run.shape)(px, py)) by {
                let c = cell(px - x, s);
                let r = cell(py - y, s);
                lemma_cell(px - x, s, start as int);
                lemma_cell(px - x, s, end as int);
                lemma_cell(py - y, s, row as int);
                if r == row && start <= c < end {
                    assert(lit(ch, c, row as int));
                }
            }
            assert(painted(painted(before@, now), run) =~= painted(before@, next));
        }
    }

    pub fn draw_text(&mut self, text: &str, x: i32, y: i32, scale: i32, color: u16)
        requires
            old(self).wf(),
            fits(7 * scale),
            fits(x + 6 * scale * text@.len()),
            fits(y + 7 * scale),
        ensures
            final(self).wf(),
            final(self)@ == layered(
                old(self)@,
                text_layers(text@, x as int, y as int, scale as int, color),
            ),
    {
        let chars = chars_of(text);
        let ghost before = self@;
        let mut i: usize = 0;
        let mut cursor: i32 = x;
        assert(text_layers(text@.take(0), x as int, y as int, scale as int, color) =~= Seq::<
            Layer,
        >::empty());
        while i < chars.len()
            invariant
                self.wf(),
                chars@ == text@,
                i <= chars@.len(),
                fits(7 * scale),
                fits(x + 6 * scale * text@.len()),
                fits(y + 7 * scale),
                cursor == x + 6 * scale * i,
                self@ == layered(
                    before,
                    text_layers(text@.take(i as int), x as int, y as int, scale as int, color),
                ),
            decreases chars@.len() - i,
        {
            proof {
                lemma_cursor(scale as int, i as int, text@.len() as int);
            }
            self.draw_char(chars[i], cursor, y, scale, color);
            proof {
                let done = text_layers(
                    text@.take(i as int),
                    x as int,
                    y as int,
                    scale as int,
                    color,
                );
                let next = text_layers(
                    text@.take(i + 1),
                    x as int,
                    y as int,
                    scale as int,
                    color,
                );
                assert(next.drop_last() =~= done);
            }
            cursor = cursor + 6 * scale;
            i += 1;
        }
        assert(text@.take(i as int) =~= text@);
    }

    /// Draws text in the middle of the panel.
    pub fn draw_centered(&mut self, text: &str, y: i32, scale: i32, color: u16)
        requires
            old(self).wf(),
            fits(7 * scale),
            measurable(text@.len() as int, scale as int),
            fits(WIDTH - width_of(text@.len() as int, scale as int)),
            fits(centered_x(text@.len() as int, scale as int) + 6 * scale * text@.len()),
            fits(y + 7 * scale),
        ensures
            final(self).wf(),
            final(self)@ == layered(
                old(self)@,
                centered_layers(text@, y as int, scale as int, color),
            ),
    {
        let width: i32 = text_width(text, scale);
        let x: i32 = if width <= WIDTH {
            (WIDTH - width) / 2
        } else {
            -((width - WIDTH) / 2)
        };
        self.draw_text(text, x, y, scale, color);
    }
}

fn clamp(value: i32, limit: i32) -> (clamped: i32)
    requires
        limit >= 0,
    ensures
        clamped == if value < 0 {
            0
        } else if value > limit {
            limit
        } else {
            value
        },
{
    if value < 0 {
        0
    } else if value > limit {
        limit
    } else {
        value
    }
}

/// The rows of a disc above `end`.
spec fn disc_rows(cx: int, cy: int, radius: int, end: int, color: u16) -> Layer {
    Layer { shape: |px: int, py: int| py < end && disc(cx, cy, radius)(px, py), color }
}

proof fn lemma_outside_rows(dx: int, dy: int, radius: int)
    by (nonlinear_arith)
    requires
        radius >= 0,
        dy < -radius || dy > radius,
    ensures
        dx * dx + dy * dy > radius * radius,
{
    assert(dx * dx >= 0);
    assert(dy * dy > radius * radius) by {
        if dy > radius {
            assert(dy * dy > radius * radius);
        } else {
            assert((-dy) * (-dy) > radius * radius);
            assert((-dy) * (-dy) == dy * dy);
        }
    }
}

/// A row of a disc reaches as far as its largest whole number of points.
proof fn lemma_row_of_disc(t: int, dy: int, dx: int, r2: int)
    by (nonlinear_arith)
    requires
        dx >= 0,
        dx * dx + dy * dy <= r2,
        (dx + 1) * (dx + 1) + dy * dy > r2,
    ensures
        (t * t + dy * dy <= r2) <==> (-dx <= t < dx + 1),
{
    if t > dx {
        assert(t * t >= (dx + 1) * (dx + 1));
    } else if t < -dx {
        assert((-t) * (-t) >= (dx + 1) * (dx + 1));
        assert((-t) * (-t) == t * t);
    } else if t >= 0 {
        assert(t * t <= dx * dx);
    } else {
        assert((-t) * (-t) <= dx * dx);
        assert((-t) * (-t) == t * t);
    }
}

/// Where the characters of a text begin lies between where the first does and
/// where the text ends.
proof fn lemma_cursor(scale: int, i: int, n: int)
    requires
        0 <= i < n,
    ensures
        scale >= 0 ==> 0 <= 6 * scale * i <= 6 * scale * (i + 1) <= 6 * scale * n,
        scale < 0 ==> 0 >= 6 * scale * i >= 6 * scale * (i + 1) >= 6 * scale * n,
        6 * scale * (i + 1) == 6 * scale * i + 6 * scale,
{
    assert(6 * scale * (i + 1) == 6 * scale * i + 6 * scale) by (nonlinear_arith);
    if scale >= 0 {
        assert(0 <= 6 * scale * i && 6 * scale * (i + 1) <= 6 * scale * n) by (nonlinear_arith)
            requires
                scale >= 0,
                0 <= i < n,
        ;
    } else {
        assert(0 >= 6 * scale * i && 6 * scale * (i + 1) >= 6 * scale * n) by (nonlinear_arith)
            requires
                scale < 0,
                0 <= i < n,
        ;
    }
}

/// Small multiples of a scale, spelled out.
proof fn lemma_times(k: int, scale: int)
    requires
        0 <= k <= 7,
        1 <= scale,
    ensures
        0 <= k * scale <= 7 * scale,
        k == 0 ==> k * scale == 0,
        k == 1 ==> k * scale == scale,
        k == 2 ==> k * scale == 2 * scale,
        k == 3 ==> k * scale == 3 * scale,
        k == 4 ==> k * scale == 4 * scale,
        k == 5 ==> k * scale == 5 * scale,
        k == 6 ==> k * scale == 6 * scale,
        k == 7 ==> k * scale == 7 * scale,
{
}

/// Which of the first seven cells of width `scale` the distance `d` falls into;
/// seven if it lies behind them, and minus one if it lies before.
pub open spec fn cell(d: int, scale: int) -> int {
    if d < 0 {
        -1
    } else if d < scale {
        0
    } else if d < 2 * scale {
        1
    } else if d < 3 * scale {
        2
    } else if d < 4 * scale {
        3
    } else if d < 5 * scale {
        4
    } else if d < 6 * scale {
        5
    } else if d < 7 * scale {
        6
    } else {
        7
    }
}

proof fn lemma_cell(d: int, scale: int, k: int)
    requires
        0 <= k <= 6,
        1 <= scale,
    ensures
        cell(d, scale) >= k <==> d >= k * scale,
        cell(d, scale) == k <==> k * scale <= d < k * scale + scale,
{
    lemma_times(k, scale);
}

pub const GLYPHS: [u8; 215] = [
    0x00, 0x00, 0x00, 0x00, 0x00,
    0x00, 0x00, 0x5f, 0x00, 0x00,
    0x00, 0x60, 0x60, 0x00, 0x00,
    0x00, 0x36, 0x36, 0x00, 0x00,
    0x23, 0x13, 0x08, 0x64, 0x62,
    0x08, 0x08, 0x08, 0x08, 0x08,
    0x3e, 0x51, 0x49, 0x45, 0x3e,
    0x00, 0x42, 0x7f, 0x40, 0x00,
    0x42, 0x61, 0x51, 0x49, 0x46,
    0x21, 0x41, 0x45, 0x4b, 0x31,
    0x18, 0x14, 0x12, 0x7f, 0x10,
    0x27, 0x45, 0x45, 0x45, 0x39,
    0x3c, 0x4a, 0x49, 0x49, 0x30,
    0x01, 0x71, 0x09, 0x05, 0x03,
    0x36, 0x49, 0x49, 0x49, 0x36,
    0x06, 0x49, 0x49, 0x29, 0x1e,
    0x7e, 0x11, 0x11, 0x11, 0x7e,
    0x7f, 0x49, 0x49, 0x49, 0x36,
    0x3e, 0x41, 0x41, 0x41, 0x22,
    0x7f, 0x41, 0x41, 0x22, 0x1c,
    0x7f, 0x49, 0x49, 0x49, 0x41,
    0x7f, 0x09, 0x09, 0x09, 0x01,
    0x3e, 0x41, 0x49, 0x49, 0x7a,
    0x7f, 0x08, 0x08, 0x08, 0x7f,
    0x00, 0x41, 0x7f, 0x41, 0x00,
    0x20, 0x40, 0x41, 0x3f, 0x01,
    0x7f, 0x08, 0x14, 0x22, 0x41,
    0x7f, 0x40, 0x40, 0x40, 0x40,
    0x7f, 0x02, 0x0c, 0x02, 0x7f,
    0x7f, 0x04, 0x08, 0x10, 0x7f,
    0x3e, 0x41, 0x41, 0x41, 0x3e,
    0x7f, 0x09, 0x09, 0x09, 0x06,
    0x3e, 0x41, 0x51, 0x21, 0x5e,
    0x7f, 0x09, 0x19, 0x29, 0x46,
    0x46, 0x49, 0x49, 0x49, 0x31,
    0x01, 0x01, 0x7f, 0x01, 0x01,
    0x3f, 0x40, 0x40, 0x40, 0x3f,
    0x1f, 0x20, 0x40, 0x20, 0x1f,
    0x3f, 0x40, 0x38, 0x40, 0x3f,
    0x63, 0x14, 0x08, 0x14, 0x63,
    0x07, 0x08, 0x70, 0x08, 0x07,
    0x61, 0x51, 0x49, 0x45, 0x43,
    0x7f, 0x41, 0x5d, 0x41, 0x7f,
];

/// Which glyph a character has: six signs, the digits, the letters in either
/// case, and one for everything else.
pub open spec fn glyph_index(ch: char) -> int {
    let c = ascii_upper(ch);
    if c == ' ' {
        0
    } else if c == '!' {
        1
    } else if c == '.' {
        2
    } else if c == ':' {
        3
    } else if c == '%' {
        4
    } else if c == '-' {
        5
    } else if '0' <= c <= '9' {
        6 + (c as int - '0' as int)
    } else if 'A' <= c <= 'Z' {
        16 + (c as int - 'A' as int)
    } else {
        42
    }
}

/// A column of a glyph: bit zero is its top point.
#[verifier::opaque]
pub open spec fn glyph_column(ch: char, col: int) -> u8 {
    GLYPHS@[5 * glyph_index(ch) + col]
}

pub open spec fn bit(value: u8, n: int) -> bool {
    if n == 0 {
        value % 2 == 1
    } else if n == 1 {
        value / 2 % 2 == 1
    } else if n == 2 {
        value / 4 % 2 == 1
    } else if n == 3 {
        value / 8 % 2 == 1
    } else if n == 4 {
        value / 16 % 2 == 1
    } else if n == 5 {
        value / 32 % 2 == 1
    } else {
        value / 64 % 2 == 1
    }
}

/// Whether a point of a character's five by seven is set.
#[verifier::opaque]
pub open spec fn lit(ch: char, col: int, row: int) -> bool {
    bit(glyph_column(ch, col), row)
}

/// The columns of a character.
pub fn glyph(ch: char) -> (columns: [u8; 5])
    ensures
        forall|col: int| 0 <= col < 5 ==> #[trigger] columns@[col] == glyph_column(ch, col),
{
    let c: char = to_ascii_upper(ch);
    let index: usize = if c == ' ' {
        0
    } else if c == '!' {
        1
    } else if c == '.' {
        2
    } else if c == ':' {
        3
    } else if c == '%' {
        4
    } else if c == '-' {
        5
    } else if '0' <= c && c <= '9' {
        6 + (c as u32 - 48) as usize
    } else if 'A' <= c && c <= 'Z' {
        16 + (c as u32 - 65) as usize
    } else {
        42
    };
    assert(index == glyph_index(ch));
    proof {
        reveal(glyph_column);
    }
    [
        GLYPHS[5 * index],
        GLYPHS[5 * index + 1],
        GLYPHS[5 * index + 2],
        GLYPHS[5 * index + 3],
        GLYPHS[5 * index + 4],
    ]
}

fn is_lit(ch: char, col: usize, row: usize) -> (set: bool)
    requires
        col < 5,
        row < 7,
    ensures
        set == lit(ch, col as int, row as int),
{
    let columns = glyph(ch);
    let value: u8 = columns[col];
    proof {
        reveal(lit);
        assert(columns@[col as int] == glyph_column(ch, col as int));
    }
    match row {
        0 => value % 2 == 1,
        1 => value / 2 % 2 == 1,
        2 => value / 4 % 2 == 1,
        3 => value / 8 % 2 == 1,
        4 => value / 16 % 2 == 1,
        5 => value / 32 % 2 == 1,
        _ => value / 64 % 2 == 1,
    }
}

/// The points of a character at `x`, `y`, each a square of `scale` points.
pub open spec fn char_layer(ch: char, x: int, y: int, scale: int, color: u16) -> Layer {
    Layer {
        shape: |px: int, py: int|
            0 <= cell(px - x, scale) < 5 && 0 <= cell(py - y, scale) < 7 && lit(
                ch,
                cell(px - x, scale),
                cell(py - y, scale),
            ),
        color,
    }
}

/// Those points of a character that come before column `end` of row `row`, row by
/// row.
spec fn partial_char(
    ch: char,
    x: int,
    y: int,
    scale: int,
    color: u16,
    row: int,
    end: int,
) -> Layer {
    Layer {
        shape: |px: int, py: int|
            0 <= cell(px - x, scale) < 5 && 0 <= cell(py - y, scale) < 7 && lit(
                ch,
                cell(px - x, scale),
                cell(py - y, scale),
            ) && (cell(py - y, scale) < row || cell(py - y, scale) == row && cell(px - x, scale)
                < end),
        color,
    }
}

proof fn lemma_unlit_cell(
    before: spec_fn(int, int) -> Option<u16>,
    ch: char,
    x: int,
    y: int,
    scale: int,
    color: u16,
    row: int,
    col: int,
)
    requires
        !lit(ch, col, row),
    ensures
        painted(before, partial_char(ch, x, y, scale, color, row, col)) == painted(
            before,
            partial_char(ch, x, y, scale, color, row, col + 1),
        ),
{
    assert(painted(before, partial_char(ch, x, y, scale, color, row, col)) =~= painted(
        before,
        partial_char(ch, x, y, scale, color, row, col + 1),
    ));
}

proof fn lemma_next_row(
    before: spec_fn(int, int) -> Option<u16>,
    ch: char,
    x: int,
    y: int,
    scale: int,
    color: u16,
    row: int,
)
    ensures
        painted(before, partial_char(ch, x, y, scale, color, row, 5)) == painted(
            before,
            partial_char(ch, x, y, scale, color, row + 1, 0),
        ),
{
    assert(painted(before, partial_char(ch, x, y, scale, color, row, 5)) =~= painted(
        before,
        partial_char(ch, x, y, scale, color, row + 1, 0),
    ));
}

/// The characters of `text`, six points apart.
pub open spec fn text_layers(text: Seq<char>, x: int, y: int, scale: int, color: u16) -> Seq<
    Layer,
> {
    Seq::new(text.len(), |i: int| char_layer(text[i], x + 6 * scale * i, y, scale, color))
}

/// How wide `n` characters are; the last one needs no space behind it.
pub open spec fn width_of(n: int, scale: int) -> int {
    n * 6 * scale - scale
}

/// Where text begins that lies in the middle of the panel.
pub open spec fn centered_x(n: int, scale: int) -> int {
    if width_of(n, scale) <= WIDTH {
        (WIDTH - width_of(n, scale)) / 2
    } else {
        -((width_of(n, scale) - WIDTH) / 2)
    }
}

pub open spec fn centered_layers(text: Seq<char>, y: int, scale: int, color: u16) -> Seq<Layer> {
    text_layers(text, centered_x(text.len() as int, scale), y, scale, color)
}

/// Whether the width of `n` characters can be worked out.
pub open spec fn measurable(n: int, scale: int) -> bool {
    fits(6 * n) && fits(n * 6 * scale) && fits(width_of(n, scale))
}

pub fn text_width(text: &str, scale: i32) -> (width: i32)
    requires
        measurable(text@.len() as int, scale as int),
    ensures
        width == width_of(text@.len() as int, scale as int),
{
    let chars = chars_of(text);
    let n: i32 = chars.len() as i32;
    n * 6 * scale - scale
}

/// The upper five bits of a colour are its red, the middle six its green and the lower
/// five its blue, each without the bits that it has too many.
pub proof fn law_colours_hold_their_parts(r: u8, g: u8, b: u8)
    ensures
        ({
            let color = rgb565_of(r as int, g as int, b as int);
            &&& 0 <= color <= 0xffff
            &&& color / 2048 == r as int / 8
            &&& color / 32 % 64 == g as int / 4
            &&& color % 32 == b as int / 8
        }),
{
}

/// The bits of a column are its points, the top one first.
pub proof fn law_bits_make_up_a_column(value: u8)
    requires
        value < 128,
    ensures
        value == (if bit(value, 0) {
            1int
        } else {
            0
        }) + (if bit(value, 1) {
            2int
        } else {
            0
        }) + (if bit(value, 2) {
            4int
        } else {
            0
        }) + (if bit(value, 3) {
            8int
        } else {
            0
        }) + (if bit(value, 4) {
            16int
        } else {
            0
        }) + (if bit(value, 5) {
            32int
        } else {
            0
        }) + (if bit(value, 6) {
            64int
        } else {
            0
        }),
{
}

/// Letters look the same in either case, and every letter, digit and sign has a glyph of
/// its own.
pub proof fn law_characters_have_glyphs_of_their_own(a: char, b: char)
    ensures
        0 <= glyph_index(a) < 43,
        'a' <= a <= 'z' && b as int == a as int - 32 ==> glyph_index(a) == glyph_index(b),
        glyph_index(a) == glyph_index(b) && glyph_index(a) < 42 ==> ascii_upper(a) == ascii_upper(b),
        'A' <= a <= 'Z' || '0' <= a <= '9' || a == ' ' || a == '!' || a == '.' || a == ':' || a
            == '%' || a == '-' ==> glyph_index(a) < 42,
{
}

/// A text is drawn as its parts are, the second six points of its scale to the right for
/// each character of the first.
pub proof fn law_text_is_drawn_in_parts(
    a: Seq<char>,
    b: Seq<char>,
    x: int,
    y: int,
    scale: int,
    color: u16,
)
    ensures
        text_layers(a + b, x, y, scale, color) == text_layers(a, x, y, scale, color) + text_layers(
            b,
            x + 6 * scale * a.len(),
            y,
            scale,
            color,
        ),
{
    let whole = text_layers(a + b, x, y, scale, color);
    let n = a.len() as int;
    let parts = text_layers(a, x, y, scale, color) + text_layers(
        b,
        x + 6 * scale * n,
        y,
        scale,
        color,
    );
    assert forall|i: int| 0 <= i < whole.len() implies whole[i] == parts[i] by {
        if i >= n {
            assert((a + b)[i] == b[i - n]);
            assert(6 * scale * i == 6 * scale * n + 6 * scale * (i - n)) by (nonlinear_arith);
        } else {
            assert((a + b)[i] == a[i]);
        }
    }
    assert(whole =~= parts);
}

/// Text in the middle leaves as much room on its left as on its right, or a point less.
pub proof fn law_centred_text_is_in_the_middle(n: int, scale: int)
    ensures
        ({
            let left = centered_x(n, scale);
            let right = 135 - (left + width_of(n, scale));
            left == right || right == left + 1 || (width_of(n, scale) > 135 && left == right + 1)
        }),
        width_of(n + 1, scale) == width_of(n, scale) + 6 * scale,
        width_of(1, scale) == 5 * scale,
{
    assert((n + 1) * 6 * scale == n * 6 * scale + 6 * scale) by (nonlinear_arith);
    assert(1 * 6 * scale == 6 * scale) by (nonlinear_arith);
}

/// A disc looks the same from all sides, holds its middle and reaches as far as its
/// radius, and a larger one covers a smaller one.
pub proof fn law_discs_are_round(cx: int, cy: int, radius: int, dx: int, dy: int, larger: int)
    requires
        0 <= radius <= larger,
    ensures
        disc(cx, cy, radius)(cx + dx, cy + dy) == disc(cx, cy, radius)(cx - dx, cy + dy),
        disc(cx, cy, radius)(cx + dx, cy + dy) == disc(cx, cy, radius)(cx + dx, cy - dy),
        disc(cx, cy, radius)(cx + dx, cy + dy) == disc(cx, cy, radius)(cx + dy, cy + dx),
        disc(cx, cy, radius)(cx, cy),
        disc(cx, cy, radius)(cx + dx, cy) <==> -radius <= dx <= radius,
        disc(cx, cy, radius)(cx + dx, cy + dy) ==> disc(cx, cy, larger)(cx + dx, cy + dy),
{
    assert((-dx) * (-dx) == dx * dx) by (nonlinear_arith);
    assert((-dy) * (-dy) == dy * dy) by (nonlinear_arith);
    assert(0 * 0 == 0int) by (nonlinear_arith);
    assert(radius * radius >= 0) by (nonlinear_arith);
    assert(radius * radius <= larger * larger) by (nonlinear_arith)
        requires
            0 <= radius <= larger,
    ;
    assert(dx * dx <= radius * radius <==> -radius <= dx <= radius) by (nonlinear_arith)
        requires
            0 <= radius,
    ;
    let px = cx + dx;
    let py = cy + dy;
    assert(cx - dx - cx == -dx);
    assert(cy - dy - cy == -dy);
}

/// The glyphs of the digits and of the letters stand in their order, the digits right
/// before the letters, and a small letter has the glyph of the capital one.
pub proof fn law_glyphs_stand_in_order(c: char, next: char)
    requires
        next as int == c as int + 1,
    ensures
        '0' <= c < '9' ==> glyph_index(next) == glyph_index(c) + 1,
        'A' <= c < 'Z' ==> glyph_index(next) == glyph_index(c) + 1,
        'a' <= c < 'z' ==> glyph_index(next) == glyph_index(c) + 1,
        glyph_index('a') == glyph_index('A') && glyph_index('z') == glyph_index('Z'),
        glyph_index('A') == glyph_index('9') + 1,
        glyph_index('0') == 6 && glyph_index(' ') == 0,
        0 <= glyph_index(c) <= 42,
{
}

/// A window is given by its first and its last place, each in two bytes with the upper
/// one first.
pub proof fn law_windows_are_given_by_their_ends(first: int, last: int)
    requires
        0 <= first < 65_536,
        0 <= last < 65_536,
    ensures
        ({
            let bytes = window_bytes(first, last);
            &&& bytes.len() == 4
            &&& 256 * bytes[0] + bytes[1] == first
            &&& 256 * bytes[2] + bytes[3] == last
        }),
{
}

} // verus!
