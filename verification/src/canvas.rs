//! A picture of coloured pixels, and the shapes that are painted on it.

use vstd::prelude::*;

use crate::text::chars_of;

verus! {

/// A colour: red, green and blue of 256 shades each, as the digits of a number to the base 256.
pub type Color = u32;

pub open spec fn red(color: Color) -> u8 {
    (color / 65_536 % 256) as u8
}

pub open spec fn green(color: Color) -> u8 {
    (color / 256 % 256) as u8
}

pub open spec fn blue(color: Color) -> u8 {
    (color % 256) as u8
}

#[derive(Debug, Clone, Copy, PartialEq, Eq, Structural)]
pub struct Rect {
    pub x: u32,
    pub y: u32,
    pub width: u32,
    pub height: u32,
}

impl Rect {
    pub fn new(x: u32, y: u32, width: u32, height: u32) -> (rect: Self)
        ensures
            rect == (Rect { x, y, width, height }),
    {
        Rect { x, y, width, height }
    }

    /// The last column.
    pub fn right(self) -> (x: u32)
        requires
            self.width > 0,
            self.x + self.width - 1 <= u32::MAX,
        ensures
            x == self.x + self.width - 1,
    {
        self.x + (self.width - 1)
    }

    /// The last row.
    pub fn bottom(self) -> (y: u32)
        requires
            self.height > 0,
            self.y + self.height - 1 <= u32::MAX,
        ensures
            y == self.y + self.height - 1,
    {
        self.y + (self.height - 1)
    }
}

/// The rows of a picture, from the top, each from the left.
pub type Pixels = Seq<Seq<Color>>;

/// A picture with the pixels that `covered` picks in one colour, and the others as they were.
pub open spec fn painted(
    pixels: Pixels,
    covered: spec_fn(int, int) -> bool,
    color: Color,
) -> Pixels {
    Seq::new(
        pixels.len(),
        |y: int|
            Seq::new(
                pixels[y].len(),
                |x: int|
                    if covered(x, y) {
                        color
                    } else {
                        pixels[y][x]
                    },
            ),
    )
}

/// The pixels of a rectangle.
pub open spec fn in_rect(x: int, y: int, left: int, top: int, width: int, height: int) -> bool {
    left <= x < left + width && top <= y < top + height
}

/// How far a line has come from its start towards its end, where the line is `a` columns and `b`
/// rows long: by Bresenham's rule, the step that stays closest to the line.
pub open spec fn line_passes(a: int, b: int, i: int, j: int, x: int, y: int) -> bool
    decreases (a - i) + (b - j),
{
    if i == x && j == y {
        true
    } else if i > a || j > b || (i == a && j == b) {
        false
    } else {
        let error = a * (j + 1) - b * (i + 1);
        let ni = if 2 * error >= -b {
            i + 1
        } else {
            i
        };
        let nj = if 2 * error <= a {
            j + 1
        } else {
            j
        };
        if ni + nj <= i + j || ni > a || nj > b {
            false
        } else {
            line_passes(a, b, ni, nj, x, y)
        }
    }
}

pub open spec fn distance(from: int, to: int) -> int {
    if from <= to {
        to - from
    } else {
        from - to
    }
}

/// How far `at` lies from `from` in the direction of `to`.
pub open spec fn along(from: int, to: int, at: int) -> int {
    if from < to {
        at - from
    } else {
        from - at
    }
}

/// The pixels of the line between two points.
pub open spec fn on_line(x: int, y: int, x0: int, y0: int, x1: int, y1: int) -> bool {
    line_passes(
        distance(x0, x1),
        distance(y0, y1),
        0,
        0,
        along(x0, x1, x),
        along(y0, y1, y),
    )
}

/// Five columns by seven rows of a character, a row to a number, the leftmost column in the bit worth
/// sixteen. A character without a picture is blank.
pub open spec fn glyph_rows(ch: char) -> Seq<u8> {
    if ch == '0' {
        seq![14u8, 17, 19, 21, 25, 17, 14]
    } else if ch == '1' {
        seq![4u8, 12, 4, 4, 4, 4, 14]
    } else if ch == '2' {
        seq![14u8, 17, 1, 2, 4, 8, 31]
    } else if ch == '3' {
        seq![30u8, 1, 1, 14, 1, 1, 30]
    } else if ch == '4' {
        seq![2u8, 6, 10, 18, 31, 2, 2]
    } else if ch == '5' {
        seq![31u8, 16, 16, 30, 1, 1, 30]
    } else if ch == '6' {
        seq![14u8, 16, 16, 30, 17, 17, 14]
    } else if ch == '7' {
        seq![31u8, 1, 2, 4, 8, 8, 8]
    } else if ch == '8' {
        seq![14u8, 17, 17, 14, 17, 17, 14]
    } else if ch == '9' {
        seq![14u8, 17, 17, 15, 1, 1, 14]
    } else if ch == 'A' {
        seq![14u8, 17, 17, 31, 17, 17, 17]
    } else if ch == 'E' {
        seq![31u8, 16, 16, 30, 16, 16, 31]
    } else if ch == 'L' {
        seq![16u8, 16, 16, 16, 16, 16, 31]
    } else if ch == 'M' {
        seq![17u8, 27, 21, 21, 17, 17, 17]
    } else if ch == 'I' {
        seq![31u8, 4, 4, 4, 4, 4, 31]
    } else if ch == 'N' {
        seq![17u8, 25, 25, 21, 19, 19, 17]
    } else if ch == 'V' {
        seq![17u8, 17, 17, 17, 17, 10, 4]
    } else if ch == ':' {
        seq![0u8, 4, 4, 0, 4, 4, 0]
    } else if ch == '.' {
        seq![0u8, 0, 0, 0, 0, 6, 6]
    } else if ch == '-' {
        seq![0u8, 0, 0, 31, 0, 0, 0]
    } else if ch == '%' {
        seq![25u8, 26, 4, 8, 22, 6, 0]
    } else {
        seq![0u8, 0, 0, 0, 0, 0, 0]
    }
}

/// The row of a character's picture.
pub fn glyph(ch: char, row: u32) -> (bits: u8)
    requires
        row < 7,
    ensures
        bits == glyph_rows(ch)[row as int],
{
    let rows: [u8; 7] = match ch {
        '0' => [14, 17, 19, 21, 25, 17, 14],
        '1' => [4, 12, 4, 4, 4, 4, 14],
        '2' => [14, 17, 1, 2, 4, 8, 31],
        '3' => [30, 1, 1, 14, 1, 1, 30],
        '4' => [2, 6, 10, 18, 31, 2, 2],
        '5' => [31, 16, 16, 30, 1, 1, 30],
        '6' => [14, 16, 16, 30, 17, 17, 14],
        '7' => [31, 1, 2, 4, 8, 8, 8],
        '8' => [14, 17, 17, 14, 17, 17, 14],
        '9' => [14, 17, 17, 15, 1, 1, 14],
        'A' => [14, 17, 17, 31, 17, 17, 17],
        'E' => [31, 16, 16, 30, 16, 16, 31],
        'L' => [16, 16, 16, 16, 16, 16, 31],
        'M' => [17, 27, 21, 21, 17, 17, 17],
        'I' => [31, 4, 4, 4, 4, 4, 31],
        'N' => [17, 25, 25, 21, 19, 19, 17],
        'V' => [17, 17, 17, 17, 17, 10, 4],
        ':' => [0, 4, 4, 0, 4, 4, 0],
        '.' => [0, 0, 0, 0, 0, 6, 6],
        '-' => [0, 0, 0, 31, 0, 0, 0],
        '%' => [25, 26, 4, 8, 22, 6, 0],
        _ => [0, 0, 0, 0, 0, 0, 0],
    };
    assert(rows@ =~= glyph_rows(ch));
    rows[row as usize]
}

/// What the bit for a column is worth.
pub open spec fn column_weight(column: int) -> int {
    if column == 0 {
        16
    } else if column == 1 {
        8
    } else if column == 2 {
        4
    } else if column == 3 {
        2
    } else {
        1
    }
}

/// The column of a row of a picture is set.
pub open spec fn bit_set(bits: u8, column: int) -> bool {
    (bits as int / column_weight(column)) % 2 == 1
}

/// The pixels of a text: each character has a cell of six columns by seven rows, the last column
/// empty, and `scale` pixels to a column and a row.
pub open spec fn in_text(x: int, y: int, left: int, top: int, text: Seq<char>, scale: int) -> bool {
    let cell = (x - left) / (6 * scale);
    let column = (x - left) % (6 * scale) / scale;
    let row = (y - top) / scale;
    scale > 0 && left <= x && top <= y && cell < text.len() && column < 5 && row < 7 && bit_set(
        glyph_rows(text[cell])[row],
        column,
    )
}

/// A shape on a picture.
#[derive(Debug)]
pub enum Shape {
    Fill { rect: Rect, color: Color },
    Line { x0: u32, y0: u32, x1: u32, y1: u32, color: Color },
    Text { x: u32, y: u32, text: String, color: Color, scale: u32 },
}

/// What a shape is.
pub enum ShapeView {
    Fill { x: int, y: int, width: int, height: int, color: Color },
    Line { x0: int, y0: int, x1: int, y1: int, color: Color },
    Text { x: int, y: int, text: Seq<char>, color: Color, scale: int },
}

impl View for Shape {
    type V = ShapeView;

    open spec fn view(&self) -> ShapeView {
        match self {
            Shape::Fill { rect, color } => ShapeView::Fill {
                x: rect.x as int,
                y: rect.y as int,
                width: rect.width as int,
                height: rect.height as int,
                color: *color,
            },
            Shape::Line { x0, y0, x1, y1, color } => ShapeView::Line {
                x0: *x0 as int,
                y0: *y0 as int,
                x1: *x1 as int,
                y1: *y1 as int,
                color: *color,
            },
            Shape::Text { x, y, text, color, scale } => ShapeView::Text {
                x: *x as int,
                y: *y as int,
                text: text@,
                color: *color,
                scale: *scale as int,
            },
        }
    }
}

impl ShapeView {
    pub open spec fn covers(self, x: int, y: int) -> bool {
        match self {
            ShapeView::Fill { x: left, y: top, width, height, .. } => in_rect(
                x,
                y,
                left,
                top,
                width,
                height,
            ),
            ShapeView::Line { x0, y0, x1, y1, .. } => on_line(x, y, x0, y0, x1, y1),
            ShapeView::Text { x: left, y: top, text, scale, .. } => in_text(
                x,
                y,
                left,
                top,
                text,
                scale,
            ),
        }
    }

    pub open spec fn color(self) -> Color {
        match self {
            ShapeView::Fill { color, .. } => color,
            ShapeView::Line { color, .. } => color,
            ShapeView::Text { color, .. } => color,
        }
    }

    /// A picture with the shape on it.
    pub open spec fn on(self, pixels: Pixels) -> Pixels {
        painted(pixels, |x: int, y: int| self.covers(x, y), self.color())
    }
}

/// What shapes are.
pub open spec fn shape_views(shapes: Seq<Shape>) -> Seq<ShapeView> {
    shapes.map_values(|s: Shape| s@)
}

/// A picture with shapes on it, the later over the earlier.
pub open spec fn all_painted(pixels: Pixels, shapes: Seq<ShapeView>) -> Pixels
    decreases shapes.len(),
{
    if shapes.len() == 0 {
        pixels
    } else {
        shapes.last().on(all_painted(pixels, shapes.drop_last()))
    }
}

/// A picture of `width` columns and `height` rows.
#[derive(Debug)]
pub struct Canvas {
    width: u32,
    height: u32,
    rows: Vec<Vec<Color>>,
}

impl Canvas {
    pub closed spec fn pixels(self) -> Pixels {
        self.rows@.map_values(|row: Vec<Color>| row@)
    }

    pub closed spec fn width_spec(self) -> u32 {
        self.width
    }

    pub closed spec fn height_spec(self) -> u32 {
        self.height
    }

    /// Every row is as long as the picture is wide.
    pub closed spec fn wf(self) -> bool {
        &&& self.rows@.len() == self.height
        &&& forall|y: int| 0 <= y < self.rows@.len() ==> (#[trigger] self.rows@[y])@.len()
            == self.width
    }

    /// A picture of one colour.
    pub fn filled(width: u32, height: u32, color: Color) -> (canvas: Self)
        ensures
            canvas.wf(),
            canvas.width_spec() == width,
            canvas.height_spec() == height,
            canvas.pixels() == Seq::new(height as nat, |y: int| Seq::new(width as nat, |x: int| color)),
    {
        let mut rows: Vec<Vec<Color>> = Vec::new();
        let mut y: u32 = 0;
        while y < height
            invariant
                y <= height,
                rows@.len() == y,
                forall|j: int|
                    0 <= j < y ==> (#[trigger] rows@[j])@ == Seq::new(
                        width as nat,
                        |x: int| color,
                    ),
            decreases height - y,
        {
            let mut row: Vec<Color> = Vec::new();
            let mut x: u32 = 0;
            while x < width
                invariant
                    x <= width,
                    row@ == Seq::new(x as nat, |i: int| color),
                decreases width - x,
            {
                row.push(color);
                x += 1;
                assert(row@ =~= Seq::new(x as nat, |i: int| color));
            }
            rows.push(row);
            y += 1;
        }
        let canvas = Canvas { width, height, rows };
        assert(canvas.pixels() =~= Seq::new(
            height as nat,
            |y: int| Seq::new(width as nat, |x: int| color),
        ));
        canvas
    }

    pub fn width(&self) -> (width: u32)
        ensures
            width == self.width_spec(),
    {
        self.width
    }

    pub fn height(&self) -> (height: u32)
        ensures
            height == self.height_spec(),
    {
        self.height
    }

    /// The colour of a pixel.
    pub fn pixel(&self, x: u32, y: u32) -> (color: Color)
        requires
            self.wf(),
            x < self.width_spec(),
            y < self.height_spec(),
        ensures
            color == self.pixels()[y as int][x as int],
    {
        self.rows[y as usize][x as usize]
    }

    fn put(&mut self, x: u32, y: u32, color: Color)
        requires
            old(self).wf(),
            x < old(self).width_spec(),
            y < old(self).height_spec(),
        ensures
            final(self).wf(),
            final(self).width_spec() == old(self).width_spec(),
            final(self).height_spec() == old(self).height_spec(),
            final(self).pixels() == old(self).pixels().update(
                y as int,
                old(self).pixels()[y as int].update(x as int, color),
            ),
    {
        self.rows[y as usize][x as usize] = color;
        assert(self.pixels() =~= old(self).pixels().update(
            y as int,
            old(self).pixels()[y as int].update(x as int, color),
        ));
    }
}

/// A picture is another one with the covered pixels in one colour, pixel by pixel.
spec fn repainted(
    now: Pixels,
    before: Pixels,
    covered: spec_fn(int, int) -> bool,
    color: Color,
) -> bool {
    &&& now.len() == before.len()
    &&& forall|y: int| 0 <= y < now.len() ==> (#[trigger] now[y]).len() == before[y].len()
    &&& forall|x: int, y: int|
        0 <= y < now.len() && 0 <= x < now[y].len() ==> #[trigger] now[y][x] == (if covered(x, y) {
            color
        } else {
            before[y][x]
        })
}

proof fn lemma_repainted(
    now: Pixels,
    before: Pixels,
    covered: spec_fn(int, int) -> bool,
    color: Color,
)
    requires
        repainted(now, before, covered, color),
    ensures
        now == painted(before, covered, color),
{
    let p = painted(before, covered, color);
    assert forall|y: int| 0 <= y < now.len() implies now[y] == #[trigger] p[y] by {
        assert forall|x: int| 0 <= x < now[y].len() implies now[y][x] == p[y][x] by {
        }
        assert(now[y] =~= p[y]);
    }
    assert(now =~= p);
}

/// Two ways to say which pixels are covered that agree inside the picture paint the same.
proof fn lemma_same_cover(
    pixels: Pixels,
    f: spec_fn(int, int) -> bool,
    g: spec_fn(int, int) -> bool,
    color: Color,
)
    requires
        forall|x: int, y: int|
            0 <= y < pixels.len() && 0 <= x < pixels[y].len() ==> #[trigger] f(x, y) == g(x, y),
    ensures
        painted(pixels, f, color) == painted(pixels, g, color),
{
    let a = painted(pixels, f, color);
    let b = painted(pixels, g, color);
    assert forall|y: int| 0 <= y < a.len() implies a[y] == #[trigger] b[y] by {
        assert forall|x: int| 0 <= x < a[y].len() implies a[y][x] == b[y][x] by {
            assert(f(x, y) == g(x, y));
        }
        assert(a[y] =~= b[y]);
    }
    assert(a =~= b);
}

impl Canvas {
    proof fn lemma_shape(&self)
        requires
            self.wf(),
        ensures
            self.pixels().len() == self.height_spec(),
            forall|y: int| 0 <= y < self.pixels().len() ==> (#[trigger] self.pixels()[y]).len()
                == self.width_spec(),
    {
        assert forall|y: int| 0 <= y < self.pixels().len() implies (#[trigger] self.pixels()[y]).len()
            == self.width_spec() by {
            assert(self.pixels()[y] == self.rows@[y]@);
        }
    }

    /// Fills a rectangle, as far as it lies on the picture.
    pub fn fill_rect(&mut self, rect: Rect, color: Color)
        requires
            old(self).wf(),
        ensures
            final(self).wf(),
            final(self).width_spec() == old(self).width_spec(),
            final(self).height_spec() == old(self).height_spec(),
            final(self).pixels() == painted(
                old(self).pixels(),
                |x: int, y: int|
                    in_rect(
                        x,
                        y,
                        rect.x as int,
                        rect.y as int,
                        rect.width as int,
                        rect.height as int,
                    ),
                color,
            ),
    {
        let ghost before = self.pixels();
        let ghost covered = |x: int, y: int|
            in_rect(
                x,
                y,
                rect.x as int,
                rect.y as int,
                rect.width as int,
                rect.height as int,
            );
        let width: u32 = self.width;
        let height: u32 = self.height;
        let right: u64 = rect.x as u64 + rect.width as u64;
        let bottom: u64 = rect.y as u64 + rect.height as u64;
        let right: u32 = if right < width as u64 {
            right as u32
        } else {
            width
        };
        let bottom: u32 = if bottom < height as u64 {
            bottom as u32
        } else {
            height
        };
        let mut y: u32 = rect.y;
        proof {
            self.lemma_shape();
        }
        while y < bottom
            invariant
                self.wf(),
                self.width_spec() == width,
                self.height_spec() == height,
                self.pixels().len() == height,
                before.len() == height,
                forall|j: int| 0 <= j < height ==> (#[trigger] before[j]).len() == width,
                rect.y <= y,
                bottom <= height,
                right <= width,
                y <= bottom || y == rect.y,
                right == rect.x + rect.width || (right == width && width <= rect.x + rect.width),
                repainted(
                    self.pixels(),
                    before,
                    |i: int, j: int|
                        rect.x <= i < rect.x + rect.width && rect.y <= j < y,
                    color,
                ),
            decreases bottom - y,
        {
            let mut x: u32 = rect.x;
            while x < right
                invariant
                    self.wf(),
                    self.width_spec() == width,
                    self.height_spec() == height,
                    self.pixels().len() == height,
                    before.len() == height,
                    forall|j: int| 0 <= j < height ==> (#[trigger] before[j]).len() == width,
                    rect.y <= y < bottom <= height,
                    right <= width,
                    right <= rect.x + rect.width,
                    rect.x <= x,
                    x <= right || x == rect.x,
                    repainted(
                        self.pixels(),
                        before,
                        |i: int, j: int|
                            (rect.x <= i < rect.x + rect.width && rect.y <= j < y) || (j == y
                                && rect.x <= i < x),
                        color,
                    ),
                decreases right - x,
            {
                let ghost mid = self.pixels();
                self.put(x, y, color);
                proof {
                    let now = self.pixels();
                    assert forall|i: int, j: int|
                        0 <= j < now.len() && 0 <= i < now[j].len() implies #[trigger] now[j][i]
                        == (if (rect.x <= i < rect.x + rect.width && rect.y <= j < y) || (j == y
                        && rect.x <= i < x + 1) {
                        color
                    } else {
                        before[j][i]
                    }) by {
                        if j != y {
                            assert(now[j] == mid[j]);
                            assert(mid[j][i] == now[j][i]);
                        } else if i != x {
                            assert(now[j][i] == mid[j][i]);
                        }
                    }
                    assert forall|j: int| 0 <= j < now.len() implies (#[trigger] now[j]).len()
                        == before[j].len() by {
                        assert(mid[j].len() == before[j].len());
                    }
                }
                x += 1;
            }
            y += 1;
            proof {
                let now = self.pixels();
                assert forall|i: int, j: int|
                    0 <= j < now.len() && 0 <= i < now[j].len() implies #[trigger] now[j][i] == (if (
                rect.x <= i < rect.x + rect.width && rect.y <= j < y) {
                    color
                } else {
                    before[j][i]
                }) by {
                    assert(now[j].len() == before[j].len());
                }
            }
        }
        proof {
            let now = self.pixels();
            assert forall|i: int, j: int|
                0 <= j < now.len() && 0 <= i < now[j].len() implies #[trigger] now[j][i] == (if covered(
                i,
                j,
            ) {
                color
            } else {
                before[j][i]
            }) by {
                assert(now[j].len() == before[j].len());
            }
            lemma_repainted(now, before, covered, color);
        }
    }

    fn is_lit(chars: &Vec<char>, left: u32, top: u32, scale: u32, x: u32, y: u32) -> (lit: bool)
        requires
            scale > 0,
            left <= x,
            top <= y,
        ensures
            lit == in_text(x as int, y as int, left as int, top as int, chars@, scale as int),
    {
        let across: u64 = (x - left) as u64;
        let cell_width: u64 = 6 * scale as u64;
        let cell: u64 = across / cell_width;
        let column: u64 = across % cell_width / scale as u64;
        let row: u32 = (y - top) / scale;
        proof {
            assert(cell <= across) by (nonlinear_arith)
                requires
                    cell == across / cell_width,
                    cell_width > 0,
            ;
        }
        if cell as usize >= chars.len() || column >= 5 || row >= 7 {
            return false;
        }
        let bits: u8 = glyph(chars[cell as usize], row);
        let weight: u8 = match column {
            0 => 16,
            1 => 8,
            2 => 4,
            3 => 2,
            _ => 1,
        };
        bits / weight % 2 == 1
    }

    /// Writes a text, as far as it lies on the picture.
    pub fn draw_text(&mut self, left: u32, top: u32, text: &str, color: Color, scale: u32)
        requires
            old(self).wf(),
        ensures
            final(self).wf(),
            final(self).width_spec() == old(self).width_spec(),
            final(self).height_spec() == old(self).height_spec(),
            final(self).pixels() == painted(
                old(self).pixels(),
                |x: int, y: int| in_text(x, y, left as int, top as int, text@, scale as int),
                color,
            ),
    {
        let ghost before = self.pixels();
        let ghost covered = |x: int, y: int|
            in_text(x, y, left as int, top as int, text@, scale as int);
        if scale == 0 {
            proof {
                self.lemma_shape();
                lemma_repainted_nothing(before, covered, color);
                lemma_repainted(before, before, covered, color);
            }
            return;
        }
        let chars = chars_of(text);
        let width: u32 = self.width;
        let height: u32 = self.height;
        let tall: u64 = top as u64 + 7 * scale as u64;
        let bottom: u32 = if tall < height as u64 {
            tall as u32
        } else {
            height
        };
        let cells: u128 = chars.len() as u128;
        proof {
            assert(0 <= cells * (6 * scale) <= 0xffff_ffff_ffff_ffff * (6 * 0xffff_ffff))
                by (nonlinear_arith)
                requires
                    0 <= cells <= 0xffff_ffff_ffff_ffff,
                    0 < scale <= 0xffff_ffff,
            ;
        }
        let wide: u128 = left as u128 + cells * (6 * scale as u128);
        let right: u32 = if wide < width as u128 {
            wide as u32
        } else {
            width
        };
        let mut y: u32 = top;
        proof {
            self.lemma_shape();
        }
        while y < bottom
            invariant
                self.wf(),
                self.width_spec() == width,
                self.height_spec() == height,
                self.pixels().len() == height,
                before.len() == height,
                forall|j: int| 0 <= j < height ==> (#[trigger] before[j]).len() == width,
                0 < scale,
                chars@ == text@,
                top <= y,
                bottom <= height,
                right <= width,
                y <= bottom || y == top,
                covered == (|x: int, y: int|
                    in_text(x, y, left as int, top as int, text@, scale as int)),
                repainted(
                    self.pixels(),
                    before,
                    |i: int, j: int| covered(i, j) && i < right && j < y,
                    color,
                ),
            decreases bottom - y,
        {
            let mut x: u32 = left;
            while x < right
                invariant
                    self.wf(),
                    self.width_spec() == width,
                    self.height_spec() == height,
                    self.pixels().len() == height,
                    before.len() == height,
                    forall|j: int| 0 <= j < height ==> (#[trigger] before[j]).len() == width,
                    0 < scale,
                    chars@ == text@,
                    top <= y < bottom <= height,
                    right <= width,
                    left <= x,
                    x <= right || x == left,
                    covered == (|x: int, y: int|
                        in_text(x, y, left as int, top as int, text@, scale as int)),
                    repainted(
                        self.pixels(),
                        before,
                        |i: int, j: int|
                            covered(i, j) && ((i < right && j < y) || (j == y && i < x)),
                        color,
                    ),
                decreases right - x,
            {
                let ghost mid = self.pixels();
                let lit = Self::is_lit(&chars, left, top, scale, x, y);
                if lit {
                    self.put(x, y, color);
                }
                proof {
                    let now = self.pixels();
                    assert forall|i: int, j: int|
                        0 <= j < now.len() && 0 <= i < now[j].len() implies #[trigger] now[j][i]
                        == (if covered(i, j) && ((i < right && j < y) || (j == y && i < x + 1)) {
                        color
                    } else {
                        before[j][i]
                    }) by {
                        if j != y || !lit {
                            assert(now[j] == mid[j]);
                            assert(mid[j][i] == now[j][i]);
                        } else if i != x {
                            assert(now[j][i] == mid[j][i]);
                        }
                        if i == x && j == y {
                            assert(lit == covered(i, j));
                        }
                    }
                    assert forall|j: int| 0 <= j < now.len() implies (#[trigger] now[j]).len()
                        == before[j].len() by {
                        assert(mid[j].len() == before[j].len());
                    }
                }
                x += 1;
            }
            proof {
                let now = self.pixels();
                assert forall|i: int, j: int|
                    0 <= j < now.len() && 0 <= i < now[j].len() implies #[trigger] now[j][i] == (if covered(
                    i,
                    j,
                ) && i < right && j < y + 1 {
                    color
                } else {
                    before[j][i]
                }) by {
                    assert(now[j].len() == before[j].len());
                }
            }
            y += 1;
        }
        proof {
            let now = self.pixels();
            assert forall|i: int, j: int|
                0 <= j < now.len() && 0 <= i < now[j].len() implies #[trigger] now[j][i] == (if covered(
                i,
                j,
            ) {
                color
            } else {
                before[j][i]
            }) by {
                assert(now[j].len() == before[j].len());
                lemma_text_box(i, j, left as int, top as int, text@, scale as int);
            }
            lemma_repainted(now, before, covered, color);
        }
    }
}

/// A text stays within its cells.
proof fn lemma_text_box(x: int, y: int, left: int, top: int, text: Seq<char>, scale: int)
    requires
        0 < scale,
    ensures
        in_text(x, y, left, top, text, scale) ==> x < left + text.len() * (6 * scale) && y < top + 7
            * scale,
{
    if in_text(x, y, left, top, text, scale) {
        let d = 6 * scale;
        let cell = (x - left) / d;
        vstd::arithmetic::div_mod::lemma_fundamental_div_mod(x - left, d);
        vstd::arithmetic::div_mod::lemma_mod_bound(x - left, d);
        assert(d * cell + d <= text.len() * d) by (nonlinear_arith)
            requires
                cell + 1 <= text.len(),
                d > 0,
        ;
        let row = (y - top) / scale;
        vstd::arithmetic::div_mod::lemma_fundamental_div_mod(y - top, scale);
        vstd::arithmetic::div_mod::lemma_mod_bound(y - top, scale);
        assert(scale * row <= scale * 6) by (nonlinear_arith)
            requires
                row <= 6,
                scale > 0,
        ;
    }
}

/// A step of a line that is not at its end leads on, and not past it.
proof fn lemma_line_step(a: int, b: int, i: int, j: int)
    requires
        0 <= i <= a,
        0 <= j <= b,
        i < a || j < b,
    ensures
        ({
            let error = a * (j + 1) - b * (i + 1);
            let ni = if 2 * error >= -b {
                i + 1
            } else {
                i
            };
            let nj = if 2 * error <= a {
                j + 1
            } else {
                j
            };
            &&& ni <= a
            &&& nj <= b
            &&& ni + nj > i + j
            &&& a * (nj + 1) - b * (ni + 1) == error + (if nj > j {
                a
            } else {
                0
            }) - (if ni > i {
                b
            } else {
                0
            })
        }),
{
    assert(a * (j + 2) == a * (j + 1) + a && b * (i + 2) == b * (i + 1) + b) by (nonlinear_arith);
    if i == a {
        assert(a * (j + 1) <= a * b && b * (a + 1) == a * b + b) by (nonlinear_arith)
            requires
                0 <= a,
                0 <= j,
                j + 1 <= b,
        ;
    }
    if j == b {
        assert(b * (i + 1) <= a * b && a * (b + 1) == a * b + a) by (nonlinear_arith)
            requires
                0 <= b,
                0 <= i,
                i + 1 <= a,
        ;
    }
}

impl Canvas {
    fn put_if_inside(&mut self, x: i64, y: i64, color: Color)
        requires
            old(self).wf(),
        ensures
            final(self).wf(),
            final(self).width_spec() == old(self).width_spec(),
            final(self).height_spec() == old(self).height_spec(),
            final(self).pixels() == painted(
                old(self).pixels(),
                |i: int, j: int| i == x && j == y,
                color,
            ),
    {
        let ghost before = self.pixels();
        let ghost covered = |i: int, j: int| i == x && j == y;
        proof {
            self.lemma_shape();
        }
        if x >= 0 && y >= 0 && x < self.width as i64 && y < self.height as i64 {
            self.put(x as u32, y as u32, color);
        }
        proof {
            let now = self.pixels();
            assert forall|i: int, j: int|
                0 <= j < now.len() && 0 <= i < now[j].len() implies #[trigger] now[j][i] == (if covered(
                i,
                j,
            ) {
                color
            } else {
                before[j][i]
            }) by {
                if j != y {
                    assert(now[j] == before[j]);
                }
            }
            lemma_repainted(now, before, covered, color);
        }
    }

    /// Draws the line between two points, as far as it lies on the picture.
    pub fn line(&mut self, x0: u32, y0: u32, x1: u32, y1: u32, color: Color)
        requires
            old(self).wf(),
            x0 <= 0x3fff_ffff,
            y0 <= 0x3fff_ffff,
            x1 <= 0x3fff_ffff,
            y1 <= 0x3fff_ffff,
        ensures
            final(self).wf(),
            final(self).width_spec() == old(self).width_spec(),
            final(self).height_spec() == old(self).height_spec(),
            final(self).pixels() == painted(
                old(self).pixels(),
                |x: int, y: int| on_line(x, y, x0 as int, y0 as int, x1 as int, y1 as int),
                color,
            ),
    {
        let ghost before = self.pixels();
        let a: i64 = if x0 <= x1 {
            (x1 - x0) as i64
        } else {
            (x0 - x1) as i64
        };
        let b: i64 = if y0 <= y1 {
            (y1 - y0) as i64
        } else {
            (y0 - y1) as i64
        };
        let sx: i64 = if x0 < x1 {
            1
        } else {
            -1
        };
        let sy: i64 = if y0 < y1 {
            1
        } else {
            -1
        };
        let mut x: i64 = x0 as i64;
        let mut y: i64 = y0 as i64;
        let mut i: i64 = 0;
        let mut j: i64 = 0;
        let mut error: i64 = a - b;
        let ghost mut visited: spec_fn(int, int) -> bool = |p: int, q: int| false;
        proof {
            self.lemma_shape();
            assert(a * 1 == a && b * 1 == b) by (nonlinear_arith);
            lemma_repainted_nothing(before, visited, color);
        }
        while i < a || j < b
            invariant
                self.wf(),
                self.width_spec() == old(self).width_spec(),
                self.height_spec() == old(self).height_spec(),
                a == distance(x0 as int, x1 as int),
                b == distance(y0 as int, y1 as int),
                x0 <= 0x3fff_ffff,
                y0 <= 0x3fff_ffff,
                x1 <= 0x3fff_ffff,
                y1 <= 0x3fff_ffff,
                sx == (if x0 < x1 {
                    1int
                } else {
                    -1
                }),
                sy == (if y0 < y1 {
                    1int
                } else {
                    -1
                }),
                0 <= i <= a,
                0 <= j <= b,
                x == x0 + sx * i,
                y == y0 + sy * j,
                error == a * (j + 1) - b * (i + 1),
                repainted(self.pixels(), before, visited, color),
                forall|p: int, q: int|
                    on_line(p, q, x0 as int, y0 as int, x1 as int, y1 as int) == (#[trigger] visited(
                        p,
                        q,
                    ) || line_passes(
                        a as int,
                        b as int,
                        i as int,
                        j as int,
                        along(x0 as int, x1 as int, p),
                        along(y0 as int, y1 as int, q),
                    )),
            decreases (a - i) + (b - j),
        {
            let ghost mid = self.pixels();
            let ghost seen = visited;
            let ghost pi = i;
            let ghost pj = j;
            let ghost px = x;
            let ghost py = y;
            self.put_if_inside(x, y, color);
            proof {
                lemma_line_step(a as int, b as int, i as int, j as int);
                assert(-0x4000_0000int * 0x4000_0000 <= error <= 0x4000_0000int * 0x4000_0000)
                    by (nonlinear_arith)
                    requires
                        error == a * (j + 1) - b * (i + 1),
                        0 <= i <= a <= 0x3fff_ffff,
                        0 <= j <= b <= 0x3fff_ffff,
                ;
                visited = |p: int, q: int| seen(p, q) || (p == px && q == py);
                lemma_repainted_more(self.pixels(), mid, before, seen, x as int, y as int, color);
                assert forall|p: int, q: int|
                    (along(x0 as int, x1 as int, p) == i && along(y0 as int, y1 as int, q) == j) <==> (p
                        == x && q == y) by {
                    assert(sx * i == (if x0 < x1 {
                        i as int
                    } else {
                        -i
                    })) by (nonlinear_arith)
                        requires
                            sx == (if x0 < x1 {
                                1int
                            } else {
                                -1
                            }),
                    ;
                    assert(sy * j == (if y0 < y1 {
                        j as int
                    } else {
                        -j
                    })) by (nonlinear_arith)
                        requires
                            sy == (if y0 < y1 {
                                1int
                            } else {
                                -1
                            }),
                    ;
                }
            }
            proof {
                assert(-0x3fff_ffff <= sx * i <= 0x3fff_ffff && -0x3fff_ffff <= sy * j <= 0x3fff_ffff)
                    by (nonlinear_arith)
                    requires
                        -1 <= sx <= 1,
                        -1 <= sy <= 1,
                        0 <= i <= 0x3fff_ffff,
                        0 <= j <= 0x3fff_ffff,
                ;
            }
            let twice: i64 = error * 2;
            if twice >= -b {
                error = error - b;
                x = x + sx;
                i = i + 1;
            }
            if twice <= a {
                error = error + a;
                y = y + sy;
                j = j + 1;
            }
            proof {
                assert(sx * (pi + 1) == sx * pi + sx && sy * (pj + 1) == sy * pj + sy)
                    by (nonlinear_arith);
                assert forall|p: int, q: int|
                    on_line(p, q, x0 as int, y0 as int, x1 as int, y1 as int) == (#[trigger] visited(
                        p,
                        q,
                    ) || line_passes(
                        a as int,
                        b as int,
                        i as int,
                        j as int,
                        along(x0 as int, x1 as int, p),
                        along(y0 as int, y1 as int, q),
                    )) by {
                    let u = along(x0 as int, x1 as int, p);
                    let v = along(y0 as int, y1 as int, q);
                    assert(on_line(p, q, x0 as int, y0 as int, x1 as int, y1 as int) == (seen(p, q)
                        || line_passes(a as int, b as int, pi as int, pj as int, u, v)));
                    assert((u == pi && v == pj) <==> (p == px && q == py));
                    assert(line_passes(a as int, b as int, pi as int, pj as int, u, v) == ((u == pi
                        && v == pj) || line_passes(a as int, b as int, i as int, j as int, u, v)));
                }
            }
        }
        let ghost mid = self.pixels();
        self.put_if_inside(x, y, color);
        proof {
            let seen = visited;
            lemma_repainted_more(self.pixels(), mid, before, seen, x as int, y as int, color);
            let covered = |p: int, q: int|
                on_line(p, q, x0 as int, y0 as int, x1 as int, y1 as int);
            let all = |p: int, q: int| seen(p, q) || (p == x && q == y);
            assert(sx * i == (if x0 < x1 {
                i as int
            } else {
                -i
            })) by (nonlinear_arith)
                requires
                    sx == (if x0 < x1 {
                        1int
                    } else {
                        -1
                    }),
            ;
            assert(sy * j == (if y0 < y1 {
                j as int
            } else {
                -j
            })) by (nonlinear_arith)
                requires
                    sy == (if y0 < y1 {
                        1int
                    } else {
                        -1
                    }),
            ;
            assert forall|p: int, q: int|
                0 <= q < before.len() && 0 <= p < before[q].len() implies #[trigger] all(p, q)
                == covered(p, q) by {
                assert(covered(p, q) == (seen(p, q) || line_passes(
                    a as int,
                    b as int,
                    i as int,
                    j as int,
                    along(x0 as int, x1 as int, p),
                    along(y0 as int, y1 as int, q),
                )));
            }
            lemma_repainted(self.pixels(), before, all, color);
            lemma_same_cover(before, all, covered, color);
        }
    }

    /// Paints a shape over the picture.
    pub fn paint(&mut self, shape: &Shape)
        requires
            old(self).wf(),
            drawable(shape@),
        ensures
            final(self).wf(),
            final(self).width_spec() == old(self).width_spec(),
            final(self).height_spec() == old(self).height_spec(),
            final(self).pixels() == shape@.on(old(self).pixels()),
    {
        let ghost before = self.pixels();
        let ghost covered = |x: int, y: int| shape@.covers(x, y);
        match shape {
            Shape::Fill { rect, color } => {
                self.fill_rect(*rect, *color);
                proof {
                    lemma_same_cover(
                        before,
                        |x: int, y: int|
                            in_rect(
                                x,
                                y,
                                rect.x as int,
                                rect.y as int,
                                rect.width as int,
                                rect.height as int,
                            ),
                        covered,
                        *color,
                    );
                }
            },
            Shape::Line { x0, y0, x1, y1, color } => {
                self.line(*x0, *y0, *x1, *y1, *color);
                proof {
                    lemma_same_cover(
                        before,
                        |x: int, y: int|
                            on_line(x, y, *x0 as int, *y0 as int, *x1 as int, *y1 as int),
                        covered,
                        *color,
                    );
                }
            },
            Shape::Text { x, y, text, color, scale } => {
                self.draw_text(*x, *y, text.as_str(), *color, *scale);
                proof {
                    lemma_same_cover(
                        before,
                        |i: int, j: int|
                            in_text(i, j, *x as int, *y as int, text@, *scale as int),
                        covered,
                        *color,
                    );
                }
            },
        }
    }

    /// Paints shapes, each over those before it.
    pub fn paint_all(&mut self, shapes: &Vec<Shape>)
        requires
            old(self).wf(),
            forall|i: int| 0 <= i < shapes@.len() ==> drawable((#[trigger] shapes@[i])@),
        ensures
            final(self).wf(),
            final(self).width_spec() == old(self).width_spec(),
            final(self).height_spec() == old(self).height_spec(),
            final(self).pixels() == all_painted(old(self).pixels(), shape_views(shapes@)),
    {
        let ghost before = self.pixels();
        let ghost views = shape_views(shapes@);
        let mut i: usize = 0;
        assert(views.take(0) =~= Seq::empty());
        while i < shapes.len()
            invariant
                i <= shapes@.len(),
                views == shape_views(shapes@),
                forall|k: int| 0 <= k < shapes@.len() ==> drawable((#[trigger] shapes@[k])@),
                self.wf(),
                self.width_spec() == old(self).width_spec(),
                self.height_spec() == old(self).height_spec(),
                self.pixels() == all_painted(before, views.take(i as int)),
            decreases shapes@.len() - i,
        {
            self.paint(&shapes[i]);
            i += 1;
            assert(views.take(i as int).drop_last() =~= views.take(i - 1));
        }
        assert(views.take(i as int) =~= views);
    }

    /// The picture's bytes: red, green and blue of each pixel, row by row.
    pub open spec fn bytes_of(row: Seq<Color>) -> Seq<u8>
        decreases row.len(),
    {
        if row.len() == 0 {
            Seq::empty()
        } else {
            Self::bytes_of(row.drop_last()).push(red(row.last())).push(green(row.last())).push(
                blue(row.last()),
            )
        }
    }

    pub open spec fn all_bytes(pixels: Pixels) -> Seq<u8>
        decreases pixels.len(),
    {
        if pixels.len() == 0 {
            Seq::empty()
        } else {
            Self::all_bytes(pixels.drop_last()) + Self::bytes_of(pixels.last())
        }
    }

    pub proof fn lemma_bytes_len(row: Seq<Color>)
        ensures
            Self::bytes_of(row).len() == 3 * row.len(),
        decreases row.len(),
    {
        if row.len() > 0 {
            Self::lemma_bytes_len(row.drop_last());
        }
    }

    pub proof fn lemma_all_bytes_len(pixels: Pixels, width: nat)
        requires
            forall|y: int| 0 <= y < pixels.len() ==> (#[trigger] pixels[y]).len() == width,
        ensures
            Self::all_bytes(pixels).len() == 3 * width * pixels.len(),
        decreases pixels.len(),
    {
        if pixels.len() > 0 {
            assert forall|y: int| 0 <= y < pixels.drop_last().len() implies (
            #[trigger] pixels.drop_last()[y]).len() == width by {
                assert(pixels[y].len() == width);
            }
            Self::lemma_all_bytes_len(pixels.drop_last(), width);
            Self::lemma_bytes_len(pixels.last());
            assert(3 * width * pixels.len() == 3 * width * (pixels.len() - 1) + 3 * width)
                by (nonlinear_arith)
                requires
                    pixels.len() >= 1,
            ;
        }
    }

    /// The picture's bytes.
    pub fn as_raw(&self) -> (bytes: Vec<u8>)
        requires
            self.wf(),
        ensures
            bytes@ == Self::all_bytes(self.pixels()),
            bytes@.len() == 3 * self.width_spec() * self.height_spec(),
    {
        let ghost pixels = self.pixels();
        proof {
            self.lemma_shape();
            Self::lemma_all_bytes_len(pixels, self.width_spec() as nat);
        }
        let mut bytes: Vec<u8> = Vec::new();
        let mut y: usize = 0;
        assert(pixels.take(0) =~= Seq::empty());
        while y < self.rows.len()
            invariant
                y <= self.rows@.len(),
                pixels == self.pixels(),
                pixels.len() == self.rows@.len(),
                bytes@ == Self::all_bytes(pixels.take(y as int)),
            decreases self.rows@.len() - y,
        {
            let row = &self.rows[y];
            let ghost head = bytes@;
            let mut x: usize = 0;
            assert(row@.take(0) =~= Seq::empty());
            assert(head + Self::bytes_of(row@.take(0)) =~= head);
            while x < row.len()
                invariant
                    x <= row@.len(),
                    bytes@ == head + Self::bytes_of(row@.take(x as int)),
                decreases row@.len() - x,
            {
                assert(row@.take(x + 1).drop_last() =~= row@.take(x as int));
                let ghost start = bytes@;
                let color: Color = row[x];
                bytes.push((color / 65_536 % 256) as u8);
                bytes.push((color / 256 % 256) as u8);
                bytes.push((color % 256) as u8);
                assert(bytes@ =~= head + Self::bytes_of(row@.take(x + 1)));
                x += 1;
            }
            assert(row@.take(x as int) =~= row@);
            assert(pixels[y as int] == row@);
            assert(pixels.take(y + 1).drop_last() =~= pixels.take(y as int));
            y += 1;
        }
        assert(pixels.take(y as int) =~= pixels);
        bytes
    }
}

/// A shape that can be painted: lines end within bounds.
pub open spec fn drawable(shape: ShapeView) -> bool {
    match shape {
        ShapeView::Fill { .. } => true,
        ShapeView::Line { x0, y0, x1, y1, .. } => x0 <= 0x3fff_ffff && y0 <= 0x3fff_ffff && x1
            <= 0x3fff_ffff && y1 <= 0x3fff_ffff,
        ShapeView::Text { .. } => true,
    }
}

proof fn lemma_repainted_nothing(
    pixels: Pixels,
    covered: spec_fn(int, int) -> bool,
    color: Color,
)
    requires
        forall|x: int, y: int| !#[trigger] covered(x, y),
    ensures
        repainted(pixels, pixels, covered, color),
{
}

proof fn lemma_repainted_more(
    now: Pixels,
    mid: Pixels,
    before: Pixels,
    seen: spec_fn(int, int) -> bool,
    x: int,
    y: int,
    color: Color,
)
    requires
        repainted(mid, before, seen, color),
        now == painted(mid, |i: int, j: int| i == x && j == y, color),
    ensures
        repainted(now, before, |p: int, q: int| seen(p, q) || (p == x && q == y), color),
{
    assert forall|q: int| 0 <= q < now.len() implies (#[trigger] now[q]).len() == before[q].len() by {
        assert(mid[q].len() == before[q].len());
    }
    assert forall|p: int, q: int| 0 <= q < now.len() && 0 <= p < now[q].len() implies #[trigger] now[q][p]
        == (if seen(p, q) || (p == x && q == y) {
        color
    } else {
        before[q][p]
    }) by {
        assert(mid[q].len() == before[q].len());
        assert(mid[q][p] == (if seen(p, q) {
            color
        } else {
            before[q][p]
        }));
    }
}

/// A colour is made of its red, green and blue.
pub proof fn color_is_of_its_shades(color: Color)
    requires
        color < 0x100_0000,
    ensures
        color == red(color) * 65_536 + green(color) * 256 + blue(color),
{
}

/// A shape gives its colour to the pixels that it covers, and leaves every other as it was; of shapes
/// one over the other the last that covers a pixel decides.
pub proof fn last_shape_decides(pixels: Pixels, shapes: Seq<ShapeView>, shape: ShapeView, x: int, y: int)
    requires
        0 <= y < all_painted(pixels, shapes).len(),
        0 <= x < all_painted(pixels, shapes)[y].len(),
    ensures
        ({
            let before = all_painted(pixels, shapes);
            let after = all_painted(pixels, shapes.push(shape));
            &&& after.len() == before.len()
            &&& after[y].len() == before[y].len()
            &&& shape.covers(x, y) ==> after[y][x] == shape.color()
            &&& !shape.covers(x, y) ==> after[y][x] == before[y][x]
            &&& all_painted(pixels, Seq::empty()) == pixels
        }),
{
    assert(shapes.push(shape).drop_last() =~= shapes);
}

/// A filled rectangle covers the pixels from its corner on, as many as it is wide and high.
pub proof fn rectangle_covers_its_size(
    left: int,
    top: int,
    width: int,
    height: int,
    color: Color,
    dx: int,
    dy: int,
)
    ensures
        (ShapeView::Fill { x: left, y: top, width, height, color }).covers(left + dx, top + dy)
            <==> 0 <= dx < width && 0 <= dy < height,
{
}

proof fn lemma_line_near(a: int, b: int, i: int, j: int, x: int, y: int)
    requires
        0 <= i <= a,
        0 <= j <= b,
        line_passes(a, b, i, j, x, y),
        -a <= 2 * (a * j - b * i) || -b <= 2 * (a * j - b * i),
        2 * (a * j - b * i) <= a || 2 * (a * j - b * i) <= b,
    ensures
        i <= x <= a,
        j <= y <= b,
        -a <= 2 * (a * y - b * x) || -b <= 2 * (a * y - b * x),
        2 * (a * y - b * x) <= a || 2 * (a * y - b * x) <= b,
    decreases (a - i) + (b - j),
{
    if !(i == x && j == y) {
        let error = a * (j + 1) - b * (i + 1);
        assert(a * (j + 1) == a * j + a) by (nonlinear_arith);
        assert(b * (i + 1) == b * i + b) by (nonlinear_arith);
        let ni = if 2 * error >= -b {
            i + 1
        } else {
            i
        };
        let nj = if 2 * error <= a {
            j + 1
        } else {
            j
        };
        lemma_line_near(a, b, ni, nj, x, y);
    }
}

proof fn lemma_line_arrives(a: int, b: int, i: int, j: int)
    requires
        0 <= i <= a,
        0 <= j <= b,
    ensures
        line_passes(a, b, i, j, a, b),
        forall|x: int| i <= x <= a ==> #[trigger] passes_column(a, b, i, j, x),
        forall|y: int| j <= y <= b ==> #[trigger] passes_row(a, b, i, j, y),
    decreases (a - i) + (b - j),
{
    assert(line_passes(a, b, i, j, i, j));
    if !(i == a && j == b) {
        let error = a * (j + 1) - b * (i + 1);
        assert(a * (j + 1) == a * j + a) by (nonlinear_arith);
        assert(b * (i + 1) == b * i + b) by (nonlinear_arith);
        let ni = if 2 * error >= -b {
            i + 1
        } else {
            i
        };
        let nj = if 2 * error <= a {
            j + 1
        } else {
            j
        };
        if i == a {
            assert(a * j - b * a <= -a) by (nonlinear_arith)
                requires
                    j < b,
                    a >= 0,
            ;
        }
        if j == b {
            assert(a * b - b * i >= b) by (nonlinear_arith)
                requires
                    i < a,
                    b >= 0,
            ;
        }
        assert(ni <= a && nj <= b && ni + nj > i + j);
        lemma_line_arrives(a, b, ni, nj);
        assert forall|x: int| i <= x <= a implies #[trigger] passes_column(a, b, i, j, x) by {
            if x > i {
                assert(passes_column(a, b, ni, nj, x));
                let y = choose|y: int| #[trigger] line_passes(a, b, ni, nj, x, y);
                assert(line_passes(a, b, i, j, x, y));
            }
        }
        assert forall|y: int| j <= y <= b implies #[trigger] passes_row(a, b, i, j, y) by {
            if y > j {
                assert(passes_row(a, b, ni, nj, y));
                let x = choose|x: int| #[trigger] line_passes(a, b, ni, nj, x, y);
                assert(line_passes(a, b, i, j, x, y));
            }
        }
    }
}

/// Whether a line from a point on passes a column.
spec fn passes_column(a: int, b: int, i: int, j: int, x: int) -> bool {
    exists|y: int| #[trigger] line_passes(a, b, i, j, x, y)
}

/// Whether a line from a point on passes a row.
spec fn passes_row(a: int, b: int, i: int, j: int, y: int) -> bool {
    exists|x: int| #[trigger] line_passes(a, b, i, j, x, y)
}

/// A line has both its ends, no pixel beyond them, and none further from the straight way between them
/// than half a pixel, across the direction in which it is longer.
pub proof fn line_keeps_to_the_straight_way(x0: int, y0: int, x1: int, y1: int, x: int, y: int)
    ensures
        on_line(x0, y0, x0, y0, x1, y1),
        on_line(x1, y1, x0, y0, x1, y1),
        on_line(x, y, x0, y0, x1, y1) ==> {
            let a = distance(x0, x1);
            let b = distance(y0, y1);
            let off = a * along(y0, y1, y) - b * along(x0, x1, x);
            &&& x0 <= x <= x1 || x1 <= x <= x0
            &&& y0 <= y <= y1 || y1 <= y <= y0
            &&& -a <= 2 * off || -b <= 2 * off
            &&& 2 * off <= a || 2 * off <= b
        },
{
    let a = distance(x0, x1);
    let b = distance(y0, y1);
    lemma_line_arrives(a, b, 0, 0);
    assert(a * 0 == 0 && b * 0 == 0);
    if on_line(x, y, x0, y0, x1, y1) {
        lemma_line_near(a, b, 0, 0, along(x0, x1, x), along(y0, y1, y));
    }
}

/// A line has no gap: it has a pixel in every column and in every row between its ends.
pub proof fn line_has_no_gap(x0: int, y0: int, x1: int, y1: int, at: int)
    ensures
        x0 <= at <= x1 || x1 <= at <= x0 ==> exists|y: int| #[trigger]
            on_line(at, y, x0, y0, x1, y1),
        y0 <= at <= y1 || y1 <= at <= y0 ==> exists|x: int| #[trigger]
            on_line(x, at, x0, y0, x1, y1),
{
    let a = distance(x0, x1);
    let b = distance(y0, y1);
    lemma_line_arrives(a, b, 0, 0);
    if x0 <= at <= x1 || x1 <= at <= x0 {
        let c = along(x0, x1, at);
        assert(passes_column(a, b, 0, 0, c));
        let r = choose|r: int| #[trigger] line_passes(a, b, 0, 0, c, r);
        let y = if y0 < y1 {
            y0 + r
        } else {
            y0 - r
        };
        assert(along(y0, y1, y) == r);
        assert(on_line(at, y, x0, y0, x1, y1));
    }
    if y0 <= at <= y1 || y1 <= at <= y0 {
        let r = along(y0, y1, at);
        assert(passes_row(a, b, 0, 0, r));
        let c = choose|c: int| #[trigger] line_passes(a, b, 0, 0, c, r);
        let x = if x0 < x1 {
            x0 + c
        } else {
            x0 - c
        };
        assert(along(x0, x1, x) == c);
        assert(on_line(x, at, x0, y0, x1, y1));
    }
}

/// The characters of a text stand side by side, six columns each: a pixel of the character at a place
/// is set where it is in that character alone, drawn that far to the right.
pub proof fn characters_stand_side_by_side(
    left: int,
    top: int,
    text: Seq<char>,
    scale: int,
    k: int,
    dx: int,
    dy: int,
)
    requires
        scale > 0,
        0 <= k < text.len(),
        0 <= dx < 6 * scale,
    ensures
        in_text(left + 6 * scale * k + dx, top + dy, left, top, text, scale) <==> in_text(
            left + dx,
            top + dy,
            left,
            top,
            seq![text[k]],
            scale,
        ),
        dx >= 5 * scale || dy < 0 || dy >= 7 * scale ==> !in_text(
            left + dx,
            top + dy,
            left,
            top,
            seq![text[k]],
            scale,
        ),
{
    let w = 6 * scale;
    assert(w * k + dx == k * w + dx) by (nonlinear_arith);
    vstd::arithmetic::div_mod::lemma_fundamental_div_mod_converse(w * k + dx, w, k, dx);
    vstd::arithmetic::div_mod::lemma_fundamental_div_mod_converse(dx, w, 0, dx);
    assert(w * 0 == 0);
    assert(w * k >= 0) by (nonlinear_arith)
        requires
            w > 0,
            k >= 0,
    ;
    vstd::arithmetic::div_mod::lemma_fundamental_div_mod(dx, scale);
    vstd::arithmetic::div_mod::lemma_mod_bound(dx, scale);
    if dx >= 5 * scale {
        assert(dx / scale >= 5) by (nonlinear_arith)
            requires
                dx == scale * (dx / scale) + dx % scale,
                0 <= dx % scale < scale,
                dx >= 5 * scale,
                scale > 0,
        ;
    }
    if dy >= 7 * scale {
        vstd::arithmetic::div_mod::lemma_fundamental_div_mod(dy, scale);
        vstd::arithmetic::div_mod::lemma_mod_bound(dy, scale);
        assert(dy / scale >= 7) by (nonlinear_arith)
            requires
                dy == scale * (dy / scale) + dy % scale,
                0 <= dy % scale < scale,
                dy >= 7 * scale,
                scale > 0,
        ;
    }
}

/// The digits look different from one another.
pub proof fn digits_look_different(a: char, b: char)
    requires
        '0' <= a <= '9',
        '0' <= b <= '9',
        a != b,
    ensures
        glyph_rows(a) != glyph_rows(b),
        glyph_rows(a).len() == 7,
{
    let g = glyph_rows(a);
    let h = glyph_rows(b);
    if g == h {
        assert(g[0] == h[0] && g[1] == h[1] && g[2] == h[2] && g[3] == h[3] && g[4] == h[4] && g[5]
            == h[5] && g[6] == h[6]);
    }
}

/// The bytes of a row are the red, green and blue of its pixels in turn.
pub proof fn bytes_are_of_the_pixels(row: Seq<Color>, i: int)
    requires
        0 <= i < row.len(),
    ensures
        Canvas::bytes_of(row).len() == 3 * row.len(),
        Canvas::bytes_of(row)[3 * i] == red(row[i]),
        Canvas::bytes_of(row)[3 * i + 1] == green(row[i]),
        Canvas::bytes_of(row)[3 * i + 2] == blue(row[i]),
    decreases row.len(),
{
    let front = row.drop_last();
    if front.len() > 0 {
        bytes_are_of_the_pixels(
            front,
            if i < front.len() {
                i
            } else {
                0
            },
        );
        if i < front.len() {
            assert(front[i] == row[i]);
        }
    } else {
        assert(Canvas::bytes_of(front).len() == 0);
    }
}

} // verus!
