//! The composite chart: four panels of bars, with averages, volume and axes.
//!
//! A panel is laid out as a list of shapes, and the shapes are painted in order. Prices are laid out
//! in exact units, of which a won has `UNITS`: every average over 5, 20, 60 or 120 bars and every
//! margin is a whole number of them.

use image::ImageEncoder;
use vstd::prelude::*;

use crate::candles::{
    all_datable, close_of, completed_at, datable, field_sum, forming_at, lemma_field_sum_slide,
    lemma_shorter_buckets, lemma_sum_fits, progress_at, timeframe_series, TimeframeSeries,
};
use crate::canvas::{
    all_painted, blue, drawable, green, red, shape_views, Canvas, Color, Pixels, Rect, Shape,
    ShapeView,
};
use crate::error::AppError;
use crate::text::{decimal_wide, digit, digit_char, digits, joined};
use crate::types::{Candle, Ratio};

verus! {

pub const COMPOSITE_WIDTH: u32 = 1_600;

pub const COMPOSITE_HEIGHT: u32 = 1_000;

/// Number of bars in a panel.
pub const VISIBLE_BARS: usize = 60;

/// Units of a won in which prices are laid out.
pub const UNITS: i128 = 24_000;

pub const BG: Color = 0x0c111b;

pub const PANEL_BG: Color = 0x111826;

pub const GRID: Color = 0x2a3344;

pub const BORDER: Color = 0x485266;

pub const UP: Color = 0xeb4958;

pub const DOWN: Color = 0x3980e8;

pub const FLAT: Color = 0xaeb5c2;

pub const LIVE: Color = 0xffae42;

pub const MA5_COLOR: Color = 0xffd34a;

pub const MA20_COLOR: Color = 0x51d18b;

pub const MA60_COLOR: Color = 0xd370f7;

pub const MA120_COLOR: Color = 0x59ceff;

/// `a - b`, but not below zero.
pub open spec fn less(a: int, b: int) -> int {
    if a >= b {
        a - b
    } else {
        0
    }
}

pub open spec fn min(a: int, b: int) -> int {
    if a <= b {
        a
    } else {
        b
    }
}

pub open spec fn max(a: int, b: int) -> int {
    if a >= b {
        a
    } else {
        b
    }
}

/// `numerator / denominator` to the nearest whole number, and to the even one from half way.
pub open spec fn nearest_even(numerator: int, denominator: int) -> int {
    let q = numerator / denominator;
    let r = numerator % denominator;
    if 2 * r > denominator || (2 * r == denominator && q % 2 == 1) {
        q + 1
    } else {
        q
    }
}

fn round_even(numerator: u128, denominator: u128) -> (q: u128)
    requires
        0 < denominator <= 0xffff_ffff_ffff_ffff_ffff_ffff,
        numerator <= 0xffff_ffff_ffff_ffff_ffff_ffff_ffff,
    ensures
        q == nearest_even(numerator as int, denominator as int),
        q <= numerator + 1,
{
    let q: u128 = numerator / denominator;
    let r: u128 = numerator % denominator;
    proof {
        assert(q <= numerator) by (nonlinear_arith)
            requires
                q == numerator / denominator,
                denominator > 0,
                numerator >= 0,
        ;
    }
    if 2 * r > denominator || (2 * r == denominator && q % 2 == 1) {
        q + 1
    } else {
        q
    }
}

/// The last digits of a number, as many as `places`.
pub open spec fn padded(n: int, places: int) -> Seq<char> {
    if places == 1 {
        seq![digit((n % 10) as nat)]
    } else {
        seq![digit((n / 10 % 10) as nat), digit((n % 10) as nat)]
    }
}

/// Decimal places of a price label: none from a thousand won on, one from a hundred on, else two.
pub open spec fn price_places(amount: int, denominator: int) -> int {
    if amount >= 1_000 * denominator {
        0
    } else if amount >= 100 * denominator {
        1
    } else {
        2
    }
}

pub open spec fn ten_to(places: int) -> int {
    if places == 0 {
        1
    } else if places == 1 {
        10
    } else {
        100
    }
}

/// Text of a price label.
pub open spec fn price_text(numerator: int, denominator: int) -> Seq<char> {
    let amount = if numerator < 0 {
        -numerator
    } else {
        numerator
    };
    let places = price_places(amount, denominator);
    let unit = ten_to(places);
    let q = nearest_even(amount * unit, denominator);
    let sign = if numerator < 0 {
        seq!['-']
    } else {
        Seq::empty()
    };
    if places == 0 {
        sign + digits(q as nat)
    } else {
        sign + digits((q / unit) as nat) + seq!['.'] + padded(q % unit, places)
    }
}

/// Writes a price label.
pub fn format_price(numerator: i128, denominator: u128) -> (text: String)
    requires
        0 < denominator <= 0xffff_ffff_ffff_ffff,
        -0xffff_ffff_ffff_ffff_ffff_ffff <= numerator <= 0xffff_ffff_ffff_ffff_ffff_ffff,
    ensures
        text@ == price_text(numerator as int, denominator as int),
{
    let amount: u128 = if numerator < 0 {
        (-numerator) as u128
    } else {
        numerator as u128
    };
    let mut text = String::new();
    if numerator < 0 {
        text.push('-');
        assert(text@ =~= seq!['-']);
    }
    let ghost sign = text@;
    if amount >= 1_000 * denominator {
        text.append(decimal_wide(round_even(amount, denominator)).as_str());
        assert(amount * 1 == amount);
        assert(text@ =~= price_text(numerator as int, denominator as int));
        return text;
    }
    if amount >= 100 * denominator {
        let q: u128 = round_even(amount * 10, denominator);
        text.append(decimal_wide(q / 10).as_str());
        text.push('.');
        text.push(digit_char(q % 10));
        assert(text@ =~= price_text(numerator as int, denominator as int));
        return text;
    }
    let q: u128 = round_even(amount * 100, denominator);
    text.append(decimal_wide(q / 100).as_str());
    text.push('.');
    text.push(digit_char(q % 100 / 10));
    text.push(digit_char(q % 100 % 10));
    assert(text@ =~= price_text(numerator as int, denominator as int));
    text
}

/// Hours and minutes of a wall-clock time.
pub open spec fn time_text(at: int) -> Seq<char> {
    let second = at % 86_400;
    let hour = second / 3_600;
    let minute = second % 3_600 / 60;
    seq![
        digit((hour / 10) as nat),
        digit((hour % 10) as nat),
        ':',
        digit((minute / 10) as nat),
        digit((minute % 10) as nat),
    ]
}

/// Writes hours and minutes.
pub fn format_time(fake_epoch: i64) -> (text: String)
    ensures
        text@ == time_text(fake_epoch as int),
{
    let second: i64 = match fake_epoch.checked_rem_euclid(86_400) {
        Some(second) => second,
        None => 0,
    };
    let second: u128 = second as u128;
    let hour: u128 = second / 3_600;
    let minute: u128 = second % 3_600 / 60;
    let mut text = String::new();
    text.push(digit_char(hour / 10));
    text.push(digit_char(hour % 10));
    text.push(':');
    text.push(digit_char(minute / 10));
    text.push(digit_char(minute % 10));
    assert(text@ =~= time_text(fake_epoch as int));
    text
}

/// Columns that a text takes.
pub fn text_width(text: &str, scale: u32) -> (width: u128)
    ensures
        width == text@.len() * 6 * scale,
        width <= 0xffff_ffff_ffff_ffff_ffff_ffff_ffff,
{
    let count: usize = text.unicode_len();
    proof {
        assert(count * 6 * scale <= 0xffff_ffff_ffff_ffff * 6 * 0xffff_ffff && count * 6 * scale
            >= 0) by (nonlinear_arith)
            requires
                0 <= count <= 0xffff_ffff_ffff_ffff,
                0 <= scale <= 0xffff_ffff,
        ;
    }
    count as u128 * 6 * scale as u128
}

/// A colour for the volume below a bar: two fifths of each shade.
pub open spec fn dimmed(color: Color) -> Color {
    ((red(color) * 2 / 5) * 65_536 + (green(color) * 2 / 5) * 256 + blue(color) * 2 / 5) as Color
}

fn dim(color: Color) -> (dark: Color)
    ensures
        dark == dimmed(color),
{
    let r: u32 = color / 65_536 % 256 * 2 / 5;
    let g: u32 = color / 256 % 256 * 2 / 5;
    let b: u32 = color % 256 * 2 / 5;
    r * 65_536 + g * 256 + b
}

pub open spec fn fill(x: int, y: int, width: int, height: int, color: Color) -> ShapeView {
    ShapeView::Fill { x, y, width, height, color }
}

pub open spec fn label(x: int, y: int, text: Seq<char>, color: Color, scale: int) -> ShapeView {
    ShapeView::Text { x, y, text, color, scale }
}

pub open spec fn all_drawable(shapes: Seq<ShapeView>) -> bool {
    forall|i: int| 0 <= i < shapes.len() ==> drawable(#[trigger] shapes[i])
}

/// The list has grown by these shapes, and can still be painted.
pub open spec fn grew(now: Seq<Shape>, before: Seq<Shape>, by: Seq<ShapeView>) -> bool {
    &&& shape_views(now) == shape_views(before) + by
    &&& all_drawable(shape_views(before)) ==> all_drawable(shape_views(now))
}

proof fn lemma_pushed(before: Seq<Shape>, shape: Shape)
    requires
        drawable(shape@),
    ensures
        grew(before.push(shape), before, seq![shape@]),
{
    let now = before.push(shape);
    assert(shape_views(now) =~= shape_views(before) + seq![shape@]);
    assert forall|i: int| all_drawable(shape_views(before)) && 0 <= i < shape_views(
        now,
    ).len() implies drawable(#[trigger] shape_views(now)[i]) by {
        if i < before.len() {
            assert(shape_views(now)[i] == shape_views(before)[i]);
        }
    }
}

/// What grew twice grew by both.
proof fn lemma_grew(a: Seq<Shape>, b: Seq<Shape>, c: Seq<Shape>, x: Seq<ShapeView>, y: Seq<ShapeView>)
    requires
        grew(b, a, x),
        grew(c, b, y),
    ensures
        grew(c, a, x + y),
{
    assert(shape_views(a) + x + y =~= shape_views(a) + (x + y));
}

fn push_fill(out: &mut Vec<Shape>, x: u32, y: u32, width: u32, height: u32, color: Color)
    ensures
        grew(
            final(out)@,
            old(out)@,
            seq![fill(x as int, y as int, width as int, height as int, color)],
        ),
{
    let shape = Shape::Fill { rect: Rect::new(x, y, width, height), color };
    proof {
        lemma_pushed(out@, shape);
    }
    out.push(shape);
}

fn push_text(out: &mut Vec<Shape>, x: u32, y: u32, text: &str, color: Color, scale: u32)
    ensures
        grew(
            final(out)@,
            old(out)@,
            seq![label(x as int, y as int, text@, color, scale as int)],
        ),
{
    let shape = Shape::Text { x, y, text: text.to_owned(), color, scale };
    proof {
        lemma_pushed(out@, shape);
    }
    out.push(shape);
}

fn push_line(out: &mut Vec<Shape>, x0: u32, y0: u32, x1: u32, y1: u32, color: Color)
    requires
        x0 <= 0x3fff_ffff,
        y0 <= 0x3fff_ffff,
        x1 <= 0x3fff_ffff,
        y1 <= 0x3fff_ffff,
    ensures
        grew(
            final(out)@,
            old(out)@,
            seq![
                ShapeView::Line {
                    x0: x0 as int,
                    y0: y0 as int,
                    x1: x1 as int,
                    y1: y1 as int,
                    color,
                },
            ],
        ),
{
    let shape = Shape::Line { x0, y0, x1, y1, color };
    proof {
        lemma_pushed(out@, shape);
    }
    out.push(shape);
}

/// The outline of a rectangle.
pub open spec fn outline(x: int, y: int, width: int, height: int, color: Color) -> Seq<ShapeView> {
    seq![
        fill(x, y, width, 1, color),
        fill(x, y + height - 1, width, 1, color),
        fill(x, y, 1, height, color),
        fill(x + width - 1, y, 1, height, color),
    ]
}

fn push_outline(out: &mut Vec<Shape>, rect: Rect, color: Color)
    requires
        rect.width > 0,
        rect.height > 0,
        rect.x + rect.width <= u32::MAX,
        rect.y + rect.height <= u32::MAX,
    ensures
        grew(
            final(out)@,
            old(out)@,
            outline(
                rect.x as int,
                rect.y as int,
                rect.width as int,
                rect.height as int,
                color,
            ),
        ),
{
    let ghost s0 = out@;
    push_fill(out, rect.x, rect.y, rect.width, 1, color);
    let ghost s1 = out@;
    push_fill(out, rect.x, rect.bottom(), rect.width, 1, color);
    let ghost s2 = out@;
    push_fill(out, rect.x, rect.y, 1, rect.height, color);
    let ghost s3 = out@;
    push_fill(out, rect.right(), rect.y, 1, rect.height, color);
    proof {
        let x = rect.x as int;
        let y = rect.y as int;
        let w = rect.width as int;
        let h = rect.height as int;
        let a = seq![fill(x, y, w, 1, color)];
        let b = seq![fill(x, y + h - 1, w, 1, color)];
        let c = seq![fill(x, y, 1, h, color)];
        let d = seq![fill(x + w - 1, y, 1, h, color)];
        lemma_grew(s0, s1, s2, a, b);
        lemma_grew(s0, s2, s3, a + b, c);
        lemma_grew(s0, s3, out@, a + b + c, d);
        assert(a + b + c + d =~= outline(x, y, w, h, color));
    }
}

/// A panel that everything fits on: the plot has a column and the volumes have a row, 68 times the
/// height can be counted, and lines end where the arithmetic of their steps can.
pub open spec fn panel_fits(panel: Rect) -> bool {
    &&& 91 <= panel.width
    &&& 157 <= panel.height
    &&& panel.height * 68 <= u32::MAX
    &&& panel.x + panel.width <= 0x4000_0000
    &&& panel.y + panel.height <= 0x4000_0000
}

/// The frame of a panel: its ground, its border, a stripe and its name.
pub open spec fn frame_shapes(panel: Rect, name: Seq<char>, accent: Color) -> Seq<ShapeView> {
    seq![
        fill(
            panel.x as int,
            panel.y as int,
            panel.width as int,
            panel.height as int,
            PANEL_BG,
        ),
    ] + outline(
        panel.x as int,
        panel.y as int,
        panel.width as int,
        panel.height as int,
        BORDER,
    ) + seq![
        fill(panel.x + 1, panel.y + 1, panel.width - 2, 4, accent),
        label(panel.x + 14, panel.y + 14, name, accent, 2),
        label(panel.x + 100, panel.y + 18, "MA"@, FLAT, 1),
    ]
}

fn push_frame(out: &mut Vec<Shape>, panel: Rect, name: &str, accent: Color)
    requires
        panel_fits(panel),
    ensures
        grew(final(out)@, old(out)@, frame_shapes(panel, name@, accent)),
{
    let ghost s0 = out@;
    push_fill(out, panel.x, panel.y, panel.width, panel.height, PANEL_BG);
    let ghost s1 = out@;
    push_outline(out, panel, BORDER);
    let ghost s2 = out@;
    push_fill(out, panel.x + 1, panel.y + 1, panel.width - 2, 4, accent);
    let ghost s3 = out@;
    push_text(out, panel.x + 14, panel.y + 14, name, accent, 2);
    let ghost s4 = out@;
    push_text(out, panel.x + 100, panel.y + 18, "MA", FLAT, 1);
    proof {
        let a = seq![
            fill(
                panel.x as int,
                panel.y as int,
                panel.width as int,
                panel.height as int,
                PANEL_BG,
            ),
        ];
        let b = outline(
            panel.x as int,
            panel.y as int,
            panel.width as int,
            panel.height as int,
            BORDER,
        );
        let c = seq![fill(panel.x + 1, panel.y + 1, panel.width - 2, 4, accent)];
        let d = seq![label(panel.x + 14, panel.y + 14, name@, accent, 2)];
        let e = seq![label(panel.x + 100, panel.y + 18, "MA"@, FLAT, 1)];
        lemma_grew(s0, s1, s2, a, b);
        lemma_grew(s0, s2, s3, a + b, c);
        lemma_grew(s0, s3, s4, a + b + c, d);
        lemma_grew(s0, s4, out@, a + b + c + d, e);
        assert(a + b + c + d + e =~= frame_shapes(panel, name@, accent));
    }
}

/// One entry of the legend of averages.
pub open spec fn legend_entry(panel: Rect, index: int, text: Seq<char>, color: Color) -> Seq<
    ShapeView,
> {
    let x = panel.x + 134 + index * 76;
    seq![fill(x, panel.y + 21, 21, 1, color), label(x + 25, panel.y + 18, text, color, 1)]
}

/// The legend of averages.
pub open spec fn legend_shapes(panel: Rect) -> Seq<ShapeView> {
    legend_entry(panel, 0, "5"@, MA5_COLOR) + legend_entry(panel, 1, "20"@, MA20_COLOR)
        + legend_entry(panel, 2, "60"@, MA60_COLOR) + legend_entry(panel, 3, "120"@, MA120_COLOR)
}

fn push_legend_entry(out: &mut Vec<Shape>, panel: Rect, index: u32, text: &str, color: Color)
    requires
        panel_fits(panel),
        index < 4,
    ensures
        grew(final(out)@, old(out)@, legend_entry(panel, index as int, text@, color)),
{
    let x: u32 = panel.x + 134 + index * 76;
    let ghost s0 = out@;
    push_fill(out, x, panel.y + 21, 21, 1, color);
    let ghost s1 = out@;
    push_text(out, x + 25, panel.y + 18, text, color, 1);
    proof {
        let a = seq![fill(x as int, panel.y + 21, 21, 1, color)];
        let b = seq![label(x + 25, panel.y + 18, text@, color, 1)];
        lemma_grew(s0, s1, out@, a, b);
        assert(a + b =~= legend_entry(panel, index as int, text@, color));
    }
}

fn push_legend(out: &mut Vec<Shape>, panel: Rect)
    requires
        panel_fits(panel),
    ensures
        grew(final(out)@, old(out)@, legend_shapes(panel)),
{
    let ghost s0 = out@;
    push_legend_entry(out, panel, 0, "5", MA5_COLOR);
    let ghost s1 = out@;
    push_legend_entry(out, panel, 1, "20", MA20_COLOR);
    let ghost s2 = out@;
    push_legend_entry(out, panel, 2, "60", MA60_COLOR);
    let ghost s3 = out@;
    push_legend_entry(out, panel, 3, "120", MA120_COLOR);
    proof {
        let a = legend_entry(panel, 0, "5"@, MA5_COLOR);
        let b = legend_entry(panel, 1, "20"@, MA20_COLOR);
        let c = legend_entry(panel, 2, "60"@, MA60_COLOR);
        let d = legend_entry(panel, 3, "120"@, MA120_COLOR);
        lemma_grew(s0, s1, s2, a, b);
        lemma_grew(s0, s2, s3, a + b, c);
        lemma_grew(s0, s3, out@, a + b + c, d);
    }
}

/// Text of the progress of a forming bar.
pub open spec fn live_text(progress: Ratio) -> Seq<char> {
    "LIVE "@ + digits(
        nearest_even(progress.numerator as int, progress.denominator as int) as nat,
    ) + "%"@
}

/// The progress of a forming bar, at the right of the panel.
pub open spec fn live_shapes(panel: Rect, progress: Option<Ratio>) -> Seq<ShapeView> {
    match progress {
        Some(progress) => seq![
            label(
                less(panel.x + panel.width - 1, live_text(progress).len() as int * 6 + 13),
                panel.y + 18,
                live_text(progress),
                LIVE,
                1,
            ),
        ],
        None => Seq::empty(),
    }
}

/// A share of a bar's time, as the series gives it.
pub open spec fn progress_fits(progress: Option<Ratio>) -> bool {
    progress is Some ==> 0 < progress->0.denominator <= 0xffff_ffff_ffff_ffff_ffff_ffff
        && progress->0.numerator <= 0xffff_ffff_ffff_ffff_ffff_ffff_ffff
}

fn push_live(out: &mut Vec<Shape>, panel: Rect, progress: Option<Ratio>)
    requires
        panel_fits(panel),
        progress_fits(progress),
    ensures
        grew(final(out)@, old(out)@, live_shapes(panel, progress)),
{
    match progress {
        None => {
            assert(shape_views(out@) + Seq::<ShapeView>::empty() =~= shape_views(out@));
        },
        Some(progress) => {
            let share: u128 = round_even(progress.numerator, progress.denominator);
            let mut text = joined("LIVE ", decimal_wide(share).as_str());
            text.append("%");
            let width: u128 = text_width(text.as_str(), 1);
            let right: u128 = panel.right() as u128;
            let x: u128 = if right >= width + 13 {
                right - (width + 13)
            } else {
                0
            };
            push_text(out, x as u32, panel.y + 18, text.as_str(), LIVE, 1);
        },
    }
}

/// Where a panel's bars and volumes are drawn.
#[derive(Debug, Clone, Copy, PartialEq, Eq, Structural)]
pub struct Plot {
    pub left: u32,
    pub right: u32,
    pub price_top: u32,
    pub price_bottom: u32,
    pub volume_top: u32,
    pub volume_bottom: u32,
}

/// The plot of a panel.
pub open spec fn plot_of(panel: Rect) -> Plot {
    let price_bottom = panel.y + panel.height * 68 / 100;
    Plot {
        left: (panel.x + 14) as u32,
        right: (panel.x + panel.width - 77) as u32,
        price_top: (panel.y + 42) as u32,
        price_bottom: price_bottom as u32,
        volume_top: (price_bottom + 15) as u32,
        volume_bottom: (panel.y + panel.height - 35) as u32,
    }
}

/// A plot of a size that can be drawn on.
pub open spec fn plot_fits(plot: Plot) -> bool {
    &&& plot.left <= plot.right <= 0x3fff_ffff
    &&& plot.price_top < plot.price_bottom
    &&& plot.price_bottom < plot.volume_top
    &&& plot.volume_top < plot.volume_bottom <= 0x3fff_ffff
    &&& plot.volume_bottom - plot.price_top <= 0x400_0000
}

fn plot_in(panel: Rect) -> (plot: Plot)
    requires
        panel_fits(panel),
    ensures
        plot == plot_of(panel),
        plot_fits(plot),
{
    let price_bottom: u32 = panel.y + panel.height * 68 / 100;
    Plot {
        left: panel.x + 14,
        right: panel.x + (panel.width - 77),
        price_top: panel.y + 42,
        price_bottom,
        volume_top: price_bottom + 15,
        volume_bottom: panel.y + (panel.height - 35),
    }
}

/// A grid line at each quarter of the prices' height.
pub open spec fn grid_rows(plot: Plot, count: int) -> Seq<ShapeView>
    decreases count,
{
    if count <= 0 {
        Seq::empty()
    } else {
        let y = plot.price_top + (plot.price_bottom - plot.price_top) * (count - 1) / 4;
        grid_rows(plot, count - 1) + seq![
            fill(plot.left as int, y, plot.right - plot.left + 1, 1, GRID),
        ]
    }
}

/// A grid line at each quarter of the width.
pub open spec fn grid_columns(plot: Plot, count: int) -> Seq<ShapeView>
    decreases count,
{
    if count <= 0 {
        Seq::empty()
    } else {
        let x = plot.left + (plot.right - plot.left) * (count - 1) / 4;
        grid_columns(plot, count - 1) + seq![
            fill(
                x,
                plot.price_top as int,
                1,
                plot.volume_bottom - plot.price_top + 1,
                GRID,
            ),
        ]
    }
}

/// The grid, and the lines below the prices and above the volumes.
pub open spec fn grid_shapes(plot: Plot) -> Seq<ShapeView> {
    grid_rows(plot, 5) + grid_columns(plot, 5) + seq![
        fill(
            plot.left as int,
            plot.price_bottom as int,
            plot.right - plot.left + 1,
            1,
            BORDER,
        ),
        fill(plot.left as int, plot.volume_top as int, plot.right - plot.left + 1, 1, GRID),
    ]
}

proof fn lemma_quarter(span: int, count: int)
    requires
        0 <= span <= 0x3fff_ffff,
        0 <= count <= 4,
    ensures
        0 <= span * count <= 4 * span,
        0 <= span * count / 4 <= span,
{
    assert(0 <= span * count <= span * 4) by (nonlinear_arith)
        requires
            0 <= span,
            0 <= count <= 4,
    ;
}

fn push_grid(out: &mut Vec<Shape>, plot: Plot)
    requires
        plot_fits(plot),
    ensures
        grew(final(out)@, old(out)@, grid_shapes(plot)),
{
    let ghost s0 = out@;
    let wide: u32 = plot.right - plot.left + 1;
    let mut row: u32 = 0;
    assert(shape_views(s0) + grid_rows(plot, 0) =~= shape_views(s0));
    while row < 5
        invariant
            row <= 5,
            plot_fits(plot),
            wide == plot.right - plot.left + 1,
            grew(out@, s0, grid_rows(plot, row as int)),
        decreases 5 - row,
    {
        let ghost s = out@;
        let height: u32 = plot.price_bottom - plot.price_top;
        proof {
            lemma_quarter(height as int, row as int);
        }
        let y: u32 = plot.price_top + height * row / 4;
        push_fill(out, plot.left, y, wide, 1, GRID);
        proof {
            lemma_grew(
                s0,
                s,
                out@,
                grid_rows(plot, row as int),
                seq![fill(plot.left as int, y as int, wide as int, 1, GRID)],
            );
        }
        row += 1;
    }
    let ghost s1 = out@;
    let mut column: u32 = 0;
    assert(shape_views(s1) + grid_columns(plot, 0) =~= shape_views(s1));
    while column < 5
        invariant
            column <= 5,
            plot_fits(plot),
            grew(out@, s1, grid_columns(plot, column as int)),
        decreases 5 - column,
    {
        let ghost s = out@;
        let width: u32 = plot.right - plot.left;
        proof {
            lemma_quarter(width as int, column as int);
        }
        let x: u32 = plot.left + width * column / 4;
        let tall: u32 = plot.volume_bottom - plot.price_top + 1;
        push_fill(out, x, plot.price_top, 1, tall, GRID);
        proof {
            lemma_grew(
                s1,
                s,
                out@,
                grid_columns(plot, column as int),
                seq![fill(x as int, plot.price_top as int, 1, tall as int, GRID)],
            );
        }
        column += 1;
    }
    let ghost s2 = out@;
    push_fill(out, plot.left, plot.price_bottom, wide, 1, BORDER);
    let ghost s3 = out@;
    push_fill(out, plot.left, plot.volume_top, wide, 1, GRID);
    proof {
        let a = grid_rows(plot, 5);
        let b = grid_columns(plot, 5);
        let c = seq![fill(plot.left as int, plot.price_bottom as int, wide as int, 1, BORDER)];
        let d = seq![fill(plot.left as int, plot.volume_top as int, wide as int, 1, GRID)];
        lemma_grew(s0, s1, s2, a, b);
        lemma_grew(s0, s2, s3, a + b, c);
        lemma_grew(s0, s3, out@, a + b + c, d);
        assert(a + b + c + d =~= grid_shapes(plot));
    }
}

/// Index of the first completed bar that is shown: the forming bar takes one of the places.
pub open spec fn first_shown(completed: Seq<Candle>, forming: Option<Candle>) -> int {
    less(
        completed.len() as int,
        if forming is Some {
            59
        } else {
            60
        },
    )
}

/// The bars that are shown.
pub open spec fn shown_bars(completed: Seq<Candle>, forming: Option<Candle>) -> Seq<Candle> {
    let tail = completed.skip(first_shown(completed, forming));
    match forming {
        Some(bar) => tail.push(bar),
        None => tail,
    }
}

fn bars_shown(completed: &Vec<Candle>, forming: Option<Candle>) -> (result: (usize, Vec<Candle>))
    ensures
        result.0 == first_shown(completed@, forming),
        result.1@ == shown_bars(completed@, forming),
        result.1@.len() <= 60,
{
    let limit: usize = match forming {
        Some(_) => VISIBLE_BARS - 1,
        None => VISIBLE_BARS,
    };
    let n: usize = completed.len();
    let start: usize = if n >= limit {
        n - limit
    } else {
        0
    };
    let mut bars: Vec<Candle> = Vec::new();
    let mut i: usize = start;
    while i < n
        invariant
            n == completed@.len(),
            start <= i <= n,
            bars@ == completed@.subrange(start as int, i as int),
        decreases n - i,
    {
        bars.push(completed[i]);
        i += 1;
        assert(completed@.subrange(start as int, i as int) =~= completed@.subrange(
            start as int,
            i - 1,
        ).push(completed@[i - 1]));
    }
    assert(bars@ =~= completed@.skip(start as int));
    if let Some(bar) = forming {
        bars.push(bar);
    }
    (start, bars)
}

/// Average close over a period that ends with a bar, in units.
pub open spec fn average_at(completed: Seq<Candle>, period: int, index: int) -> Option<int> {
    if index + 1 >= period {
        Some(
            field_sum(completed, close_of(), index + 1 - period, index + 1) * (24_000int / period),
        )
    } else {
        None
    }
}

/// The periods that are averaged over.
pub open spec fn is_period(period: int) -> bool {
    period == 5 || period == 20 || period == 60 || period == 120
}

/// A price in units, or an average of prices.
pub open spec fn in_units(value: int) -> bool {
    0 <= value <= u64::MAX * 24_000
}

proof fn lemma_average_fits(completed: Seq<Candle>, period: int, index: int)
    requires
        is_period(period),
        0 <= index,
    ensures
        average_at(completed, period, index) is Some ==> in_units(
            average_at(completed, period, index)->0,
        ),
{
    if index + 1 >= period {
        crate::candles::lemma_field_sum_bound(
            completed,
            close_of(),
            index + 1 - period,
            index + 1,
        );
        let sum = field_sum(completed, close_of(), index + 1 - period, index + 1);
        let step = 24_000int / period;
        assert(period * step == 24_000);
        assert(0 <= sum * step <= u64::MAX * (period * step)) by (nonlinear_arith)
            requires
                0 <= sum <= period * u64::MAX,
                0 <= step,
                0 < period,
        ;
    }
}

/// Averages over a period at each bar, in units, by a window that moves along.
fn moving_average_series(bars: &Vec<Candle>, period: usize) -> (averages: Vec<Option<i128>>)
    requires
        is_period(period as int),
    ensures
        averages@.len() == bars@.len(),
        forall|i: int|
            0 <= i < bars@.len() ==> (match #[trigger] averages@[i] {
                Some(v) => average_at(bars@, period as int, i) == Some(v as int) && in_units(
                    v as int,
                ),
                None => average_at(bars@, period as int, i) is None,
            }),
{
    let mut averages: Vec<Option<i128>> = Vec::new();
    let step: i128 = 24_000 / period as i128;
    let mut sum: u128 = 0;
    let mut i: usize = 0;
    while i < bars.len()
        invariant
            i <= bars@.len(),
            i == averages@.len(),
            is_period(period as int),
            step == 24_000int / period as int,
            0 <= step <= 4_800,
            sum == field_sum(
                bars@,
                close_of(),
                if i >= period {
                    i - period
                } else {
                    0
                },
                i as int,
            ),
            forall|j: int|
                0 <= j < i ==> (match #[trigger] averages@[j] {
                    Some(v) => average_at(bars@, period as int, j) == Some(v as int) && in_units(
                        v as int,
                    ),
                    None => average_at(bars@, period as int, j) is None,
                }),
        decreases bars@.len() - i,
    {
        let ghost from = if i >= period {
            i - period
        } else {
            0
        };
        proof {
            lemma_sum_fits(bars@, close_of(), from, i as int);
            if i >= period {
                lemma_field_sum_slide(bars@, close_of(), from, i + 1);
                lemma_sum_fits(bars@, close_of(), from + 1, i + 1);
                assert(close_of()(bars@[from]) == bars@[from].close);
            }
            assert(close_of()(bars@[i as int]) == bars@[i as int].close);
            lemma_average_fits(bars@, period as int, i as int);
        }
        sum = sum + bars[i].close as u128;
        if i >= period {
            sum = sum - bars[i - period].close as u128;
        }
        if i + 1 >= period {
            let ghost total = field_sum(
                bars@,
                close_of(),
                i + 1 - period,
                i + 1,
            );
            assert(sum == total);
            proof {
                crate::candles::lemma_field_sum_bound(
                    bars@,
                    close_of(),
                    i + 1 - period,
                    i + 1,
                );
                assert(sum <= 120 * 0xffff_ffff_ffff_ffff);
                assert(0 <= sum * step <= 120 * 0xffff_ffff_ffff_ffff * 4_800) by (nonlinear_arith)
                    requires
                        0 <= sum <= 120 * 0xffff_ffff_ffff_ffff,
                        0 <= step <= 4_800,
                ;
            }
            averages.push(Some(sum as i128 * step));
        } else {
            averages.push(None);
        }
        i += 1;
    }
    averages
}

/// The least of a value and the averages shown for a period.
pub open spec fn low_with(completed: Seq<Candle>, period: int, start: int, end: int, low: int) -> int
    decreases end - start,
{
    if end <= start {
        low
    } else {
        let rest = low_with(completed, period, start, end - 1, low);
        match average_at(completed, period, end - 1) {
            Some(v) => min(rest, v),
            None => rest,
        }
    }
}

/// The greatest of a value and the averages shown for a period.
pub open spec fn high_with(completed: Seq<Candle>, period: int, start: int, end: int, high: int) -> int
    decreases end - start,
{
    if end <= start {
        high
    } else {
        let rest = high_with(completed, period, start, end - 1, high);
        match average_at(completed, period, end - 1) {
            Some(v) => max(rest, v),
            None => rest,
        }
    }
}

pub open spec fn bars_low(bars: Seq<Candle>) -> int
    decreases bars.len(),
{
    if bars.len() <= 1 {
        bars[0].low * 24_000
    } else {
        min(bars_low(bars.drop_last()), bars.last().low * 24_000)
    }
}

pub open spec fn bars_high(bars: Seq<Candle>) -> int
    decreases bars.len(),
{
    if bars.len() <= 1 {
        bars[0].high * 24_000
    } else {
        max(bars_high(bars.drop_last()), bars.last().high * 24_000)
    }
}

/// The prices between which everything shown lies, lowest first.
pub open spec fn bare_range(completed: Seq<Candle>, start: int, bars: Seq<Candle>) -> (int, int) {
    let n = completed.len() as int;
    let low = low_with(
        completed,
        120,
        start,
        n,
        low_with(
            completed,
            60,
            start,
            n,
            low_with(completed, 20, start, n, low_with(completed, 5, start, n, bars_low(bars))),
        ),
    );
    let high = high_with(
        completed,
        120,
        start,
        n,
        high_with(
            completed,
            60,
            start,
            n,
            high_with(completed, 20, start, n, high_with(completed, 5, start, n, bars_high(bars))),
        ),
    );
    (low, high)
}

/// A range with a margin of 4 %, or of 0.5 % of the price where it is a single price.
pub open spec fn with_margin(low: int, high: int) -> (int, int) {
    if high == low {
        let pad = max(high, 24_000) / 200;
        (low - pad, high + pad)
    } else if low < high {
        let pad = (high - low) / 25;
        (low - pad, high + pad)
    } else {
        let pad = (low - high) / 25;
        (low + pad, high - pad)
    }
}

/// The range of prices of a panel.
pub open spec fn price_range(completed: Seq<Candle>, start: int, bars: Seq<Candle>) -> (int, int) {
    let (low, high) = bare_range(completed, start, bars);
    with_margin(low, high)
}

/// A range that prices can be placed in.
pub open spec fn range_fits(low: int, high: int) -> bool {
    &&& low != high
    &&& -0x1_0000_0000_0000_0000 * 24_000 <= low <= 0x1_0000_0000_0000_0000 * 48_000
    &&& -0x1_0000_0000_0000_0000 * 24_000 <= high <= 0x1_0000_0000_0000_0000 * 48_000
}

fn widened(low: i128, high: i128) -> (range: (i128, i128))
    requires
        in_units(low as int),
        in_units(high as int),
    ensures
        (range.0 as int, range.1 as int) == with_margin(low as int, high as int),
        range_fits(range.0 as int, range.1 as int),
{
    if high == low {
        let pad: i128 = if high >= 24_000 {
            high / 200
        } else {
            120
        };
        (low - pad, high + pad)
    } else if low < high {
        let pad: i128 = (high - low) / 25;
        (low - pad, high + pad)
    } else {
        let pad: i128 = (low - high) / 25;
        (low + pad, high - pad)
    }
}

fn fold_averages(
    averages: &Vec<Option<i128>>,
    completed: &Vec<Candle>,
    period: usize,
    start: usize,
    low: i128,
    high: i128,
) -> (range: (i128, i128))
    requires
        averages@.len() == completed@.len(),
        start <= completed@.len(),
        is_period(period as int),
        in_units(low as int),
        in_units(high as int),
        forall|i: int|
            0 <= i < completed@.len() ==> (match #[trigger] averages@[i] {
                Some(v) => average_at(completed@, period as int, i) == Some(v as int) && in_units(
                    v as int,
                ),
                None => average_at(completed@, period as int, i) is None,
            }),
    ensures
        range.0 == low_with(
            completed@,
            period as int,
            start as int,
            completed@.len() as int,
            low as int,
        ),
        range.1 == high_with(
            completed@,
            period as int,
            start as int,
            completed@.len() as int,
            high as int,
        ),
        in_units(range.0 as int),
        in_units(range.1 as int),
        range.0 <= low,
        range.1 >= high,
{
    let mut least: i128 = low;
    let mut greatest: i128 = high;
    let mut i: usize = start;
    while i < averages.len()
        invariant
            start <= i <= averages@.len(),
            averages@.len() == completed@.len(),
            is_period(period as int),
            in_units(least as int),
            in_units(greatest as int),
            least <= low,
            greatest >= high,
            least == low_with(completed@, period as int, start as int, i as int, low as int),
            greatest == high_with(completed@, period as int, start as int, i as int, high as int),
            forall|k: int|
                0 <= k < completed@.len() ==> (match #[trigger] averages@[k] {
                    Some(v) => average_at(completed@, period as int, k) == Some(v as int)
                        && in_units(v as int),
                    None => average_at(completed@, period as int, k) is None,
                }),
        decreases averages@.len() - i,
    {
        if let Some(v) = averages[i] {
            if v < least {
                least = v;
            }
            if v > greatest {
                greatest = v;
            }
        }
        i += 1;
    }
    (least, greatest)
}

fn range_of_bars(bars: &Vec<Candle>) -> (range: (i128, i128))
    requires
        bars@.len() > 0,
    ensures
        range.0 == bars_low(bars@),
        range.1 == bars_high(bars@),
        in_units(range.0 as int),
        in_units(range.1 as int),
{
    let mut low: i128 = bars[0].low as i128 * 24_000;
    let mut high: i128 = bars[0].high as i128 * 24_000;
    let mut i: usize = 1;
    assert(bars@.take(1)[0] == bars@[0]);
    while i < bars.len()
        invariant
            1 <= i <= bars@.len(),
            low == bars_low(bars@.take(i as int)),
            high == bars_high(bars@.take(i as int)),
            in_units(low as int),
            in_units(high as int),
        decreases bars@.len() - i,
    {
        assert(bars@.take(i + 1).drop_last() =~= bars@.take(i as int));
        let bar_low: i128 = bars[i].low as i128 * 24_000;
        let bar_high: i128 = bars[i].high as i128 * 24_000;
        if bar_low < low {
            low = bar_low;
        }
        if bar_high > high {
            high = bar_high;
        }
        i += 1;
    }
    assert(bars@.take(i as int) =~= bars@);
    (low, high)
}

/// Column of the middle of a bar: the bars share the width.
pub open spec fn bar_column(plot: Plot, count: int, index: int) -> int {
    plot.left + (2 * index + 1) * (plot.right - plot.left + 1) / (2 * count)
}

proof fn lemma_bar_column(plot: Plot, count: int, index: int)
    requires
        plot_fits(plot),
        0 <= index < count <= 60,
    ensures
        plot.left <= bar_column(plot, count, index) <= plot.right,
        0 <= (2 * index + 1) * (plot.right - plot.left + 1) <= 120 * 0x4000_0000,
{
    let w = plot.right - plot.left + 1;
    let d = 2 * count;
    let n = (2 * index + 1) * w;
    assert(0 <= n <= (d - 1) * w && n <= 120 * w) by (nonlinear_arith)
        requires
            n == (2 * index + 1) * w,
            0 <= index,
            2 * index + 1 <= d - 1,
            d <= 120,
            0 <= w,
    ;
    assert(n / d < w) by (nonlinear_arith)
        requires
            0 <= n <= (d - 1) * w,
            0 < d,
            0 < w,
    ;
    assert(0 <= n / d) by (nonlinear_arith)
        requires
            0 <= n,
            0 < d,
    ;
}

fn bar_x(plot: Plot, count: usize, index: usize) -> (x: u32)
    requires
        plot_fits(plot),
        index < count <= 60,
    ensures
        x == bar_column(plot, count as int, index as int),
        plot.left <= x <= plot.right,
{
    proof {
        lemma_bar_column(plot, count as int, index as int);
    }
    let wide: u64 = (plot.right - plot.left + 1) as u64;
    let offset: u64 = (2 * index as u64 + 1) * wide / (2 * count as u64);
    plot.left + offset as u32
}

/// Half the width of a bar's body.
pub open spec fn body_half(plot: Plot, count: int) -> int {
    let raw = (plot.right - plot.left + 1) * 28 / (count * 100);
    if raw < 1 {
        1
    } else if raw > 4 {
        4
    } else {
        raw
    }
}

fn half_width(plot: Plot, count: usize) -> (half: u32)
    requires
        plot_fits(plot),
        0 < count <= 60,
    ensures
        half == body_half(plot, count as int),
        1 <= half <= 4,
{
    let raw: u64 = (plot.right - plot.left + 1) as u64 * 28 / (count as u64 * 100);
    if raw < 1 {
        1
    } else if raw > 4 {
        4
    } else {
        raw as u32
    }
}

/// Row of a price: the range of prices shares the height, to the nearest row.
pub open spec fn price_row(value: int, low: int, high: int, plot: Plot) -> int {
    let span = plot.price_bottom - plot.price_top;
    let below_top = if low < high {
        high - value
    } else {
        value - high
    };
    let all = if low < high {
        high - low
    } else {
        low - high
    };
    if below_top <= 0 {
        plot.price_top as int
    } else if below_top >= all {
        plot.price_bottom as int
    } else {
        plot.price_top + (2 * (below_top * span) + all) / (2 * all)
    }
}

fn price_y(value: i128, low: i128, high: i128, plot: Plot) -> (y: u32)
    requires
        plot_fits(plot),
        in_units(value as int),
        range_fits(low as int, high as int),
    ensures
        y == price_row(value as int, low as int, high as int, plot),
        plot.price_top <= y <= plot.price_bottom,
{
    let span: i128 = (plot.price_bottom - plot.price_top) as i128;
    let below_top: i128 = if low < high {
        high - value
    } else {
        value - high
    };
    let all: i128 = if low < high {
        high - low
    } else {
        low - high
    };
    if below_top <= 0 {
        return plot.price_top;
    }
    if below_top >= all {
        return plot.price_bottom;
    }
    proof {
        assert(0 <= below_top * span <= all * span && all * span <= 0x1_0000_0000_0000_0000
            * 72_000 * 0x400_0000) by (nonlinear_arith)
            requires
                0 <= below_top <= all,
                0 < all <= 0x1_0000_0000_0000_0000 * 72_000,
                0 <= span <= 0x400_0000,
        ;
        assert(0 <= (2 * (below_top * span) + all) / (2 * all) <= span) by (nonlinear_arith)
            requires
                0 <= below_top * span <= all * span,
                0 < all,
                0 <= span,
        ;
    }
    let offset: i128 = (2 * (below_top * span) + all) / (2 * all);
    plot.price_top + offset as u32
}

/// Height of a volume: the greatest takes all the height, any takes a row.
pub open spec fn volume_height(volume: int, most: int, height: int) -> int {
    let raw = (2 * (volume * height) + most) / (2 * most);
    if raw < 1 {
        1
    } else if raw > height {
        height
    } else {
        raw
    }
}

fn bar_height(volume: u64, most: u64, height: u32) -> (rows: u32)
    requires
        most > 0,
        1 <= height <= 0x400_0000,
    ensures
        rows == volume_height(volume as int, most as int, height as int),
        1 <= rows <= height,
{
    proof {
        assert(0 <= volume * height <= 0xffff_ffff_ffff_ffff * 0x400_0000) by (nonlinear_arith)
            requires
                0 <= volume <= 0xffff_ffff_ffff_ffff,
                0 <= height <= 0x400_0000,
        ;
    }
    let raw: u128 = (2 * (volume as u128 * height as u128) + most as u128) / (2 * most as u128);
    if raw < 1 {
        1
    } else if raw > height as u128 {
        height
    } else {
        raw as u32
    }
}

pub open spec fn most_volume(bars: Seq<Candle>) -> u64
    decreases bars.len(),
{
    if bars.len() == 0 {
        0
    } else {
        let rest = most_volume(bars.drop_last());
        if bars.last().volume > rest {
            bars.last().volume
        } else {
            rest
        }
    }
}

fn max_volume(bars: &Vec<Candle>) -> (most: u64)
    ensures
        most == most_volume(bars@),
{
    let mut most: u64 = 0;
    let mut i: usize = 0;
    assert(bars@.take(0) =~= Seq::empty());
    while i < bars.len()
        invariant
            i <= bars@.len(),
            most == most_volume(bars@.take(i as int)),
        decreases bars@.len() - i,
    {
        assert(bars@.take(i + 1).drop_last() =~= bars@.take(i as int));
        if bars[i].volume > most {
            most = bars[i].volume;
        }
        i += 1;
    }
    assert(bars@.take(i as int) =~= bars@);
    most
}

pub open spec fn bar_color(bar: Candle) -> Color {
    if bar.close > bar.open {
        UP
    } else if bar.close < bar.open {
        DOWN
    } else {
        FLAT
    }
}

/// The wick of a bar, from its high to its low.
pub open spec fn wick(plot: Plot, low: int, high: int, count: int, index: int, bar: Candle) -> ShapeView {
    let a = price_row(bar.high * 24_000, low, high, plot);
    let b = price_row(bar.low * 24_000, low, high, plot);
    fill(
        bar_column(plot, count, index),
        min(a, b),
        1,
        max(a, b) - min(a, b) + 1,
        bar_color(bar),
    )
}

/// Left edge of a bar's body and volume.
pub open spec fn body_left(plot: Plot, count: int, index: int) -> int {
    max(less(bar_column(plot, count, index), body_half(plot, count)), plot.left as int)
}

/// Width of a bar's body and volume.
pub open spec fn body_width(plot: Plot, count: int, index: int) -> int {
    min(
        body_half(plot, count) * 2 + 1,
        plot.right - less(bar_column(plot, count, index), body_half(plot, count)) + 1,
    )
}

/// The body of a bar, from its open to its close, two rows at least where there is room.
pub open spec fn body(plot: Plot, low: int, high: int, count: int, index: int, bar: Candle) -> ShapeView {
    let a = price_row(bar.open * 24_000, low, high, plot);
    let b = price_row(bar.close * 24_000, low, high, plot);
    let top = min(a, b);
    let bottom = min(max(max(a, b), top + 1), plot.price_bottom as int);
    fill(
        body_left(plot, count, index),
        top,
        body_width(plot, count, index),
        bottom - top + 1,
        bar_color(bar),
    )
}

/// The box around the forming bar.
pub open spec fn live_box(plot: Plot, low: int, high: int, count: int, index: int, bar: Candle) -> Seq<
    ShapeView,
> {
    let x = bar_column(plot, count, index);
    let reach = body_half(plot, count) + 2;
    let a = price_row(bar.high * 24_000, low, high, plot);
    let b = price_row(bar.low * 24_000, low, high, plot);
    let left = max(less(x, reach), plot.left as int);
    let right = min(x + reach, plot.right as int);
    let top = max(less(min(a, b), 2), plot.price_top as int);
    let bottom = min(max(a, b) + 2, plot.price_bottom as int);
    outline(left, top, less(right, left) + 1, less(bottom, top) + 1, LIVE)
}

/// The volume below a bar.
pub open spec fn volume_bar(plot: Plot, count: int, index: int, bar: Candle, most: u64) -> ShapeView {
    let height = volume_height(
        bar.volume as int,
        most as int,
        plot.volume_bottom - plot.volume_top,
    );
    fill(
        body_left(plot, count, index),
        plot.volume_bottom - height + 1,
        body_width(plot, count, index),
        height,
        dimmed(bar_color(bar)),
    )
}

/// All that is drawn of one bar.
pub open spec fn bar_shapes(
    plot: Plot,
    low: int,
    high: int,
    bars: Seq<Candle>,
    live: bool,
    index: int,
) -> Seq<ShapeView> {
    let n = bars.len() as int;
    let bar = bars[index];
    let most = most_volume(bars);
    seq![wick(plot, low, high, n, index, bar), body(plot, low, high, n, index, bar)] + (if live
        && index + 1 == n {
        live_box(plot, low, high, n, index, bar)
    } else {
        Seq::empty()
    }) + (if most > 0 {
        seq![volume_bar(plot, n, index, bar, most)]
    } else {
        Seq::empty()
    })
}

/// All that is drawn of the first bars.
pub open spec fn bars_shapes(
    plot: Plot,
    low: int,
    high: int,
    bars: Seq<Candle>,
    live: bool,
    count: int,
) -> Seq<ShapeView>
    decreases count,
{
    if count <= 0 {
        Seq::empty()
    } else {
        bars_shapes(plot, low, high, bars, live, count - 1) + bar_shapes(
            plot,
            low,
            high,
            bars,
            live,
            count - 1,
        )
    }
}

fn color_of(bar: &Candle) -> (color: Color)
    ensures
        color == bar_color(*bar),
{
    if bar.close > bar.open {
        UP
    } else if bar.close < bar.open {
        DOWN
    } else {
        FLAT
    }
}

fn push_body(
    out: &mut Vec<Shape>,
    plot: Plot,
    low: i128,
    high: i128,
    count: usize,
    index: usize,
    bar: Candle,
)
    requires
        plot_fits(plot),
        range_fits(low as int, high as int),
        index < count <= 60,
    ensures
        grew(
            final(out)@,
            old(out)@,
            seq![
                wick(plot, low as int, high as int, count as int, index as int, bar),
                body(plot, low as int, high as int, count as int, index as int, bar),
            ],
        ),
{
    let x: u32 = bar_x(plot, count, index);
    let half: u32 = half_width(plot, count);
    let color = color_of(&bar);
    let a: u32 = price_y(bar.high as i128 * 24_000, low, high, plot);
    let b: u32 = price_y(bar.low as i128 * 24_000, low, high, plot);
    let (top, bottom) = if a <= b {
        (a, b)
    } else {
        (b, a)
    };
    let ghost s0 = out@;
    push_fill(out, x, top, 1, bottom - top + 1, color);
    let ghost s1 = out@;
    let open_y: u32 = price_y(bar.open as i128 * 24_000, low, high, plot);
    let close_y: u32 = price_y(bar.close as i128 * 24_000, low, high, plot);
    let (body_top, body_end) = if open_y <= close_y {
        (open_y, close_y)
    } else {
        (close_y, open_y)
    };
    let at_least: u32 = if body_end >= body_top + 1 {
        body_end
    } else {
        body_top + 1
    };
    let body_bottom: u32 = if at_least <= plot.price_bottom {
        at_least
    } else {
        plot.price_bottom
    };
    let (left, width) = body_span(plot, count, index);
    push_fill(out, left, body_top, width, body_bottom - body_top + 1, color);
    proof {
        let w = wick(plot, low as int, high as int, count as int, index as int, bar);
        let d = body(plot, low as int, high as int, count as int, index as int, bar);
        lemma_grew(s0, s1, out@, seq![w], seq![d]);
        assert(seq![w] + seq![d] =~= seq![w, d]);
    }
}

fn body_span(plot: Plot, count: usize, index: usize) -> (span: (u32, u32))
    requires
        plot_fits(plot),
        index < count <= 60,
    ensures
        span.0 == body_left(plot, count as int, index as int),
        span.1 == body_width(plot, count as int, index as int),
{
    let x: u32 = bar_x(plot, count, index);
    let half: u32 = half_width(plot, count);
    let start: u32 = if x >= half {
        x - half
    } else {
        0
    };
    let left: u32 = if start >= plot.left {
        start
    } else {
        plot.left
    };
    let room: u32 = plot.right - start + 1;
    let full: u32 = half * 2 + 1;
    let width: u32 = if full <= room {
        full
    } else {
        room
    };
    (left, width)
}

fn push_live_box(
    out: &mut Vec<Shape>,
    plot: Plot,
    low: i128,
    high: i128,
    count: usize,
    index: usize,
    bar: Candle,
)
    requires
        plot_fits(plot),
        range_fits(low as int, high as int),
        index < count <= 60,
    ensures
        grew(
            final(out)@,
            old(out)@,
            live_box(plot, low as int, high as int, count as int, index as int, bar),
        ),
{
    let x: u32 = bar_x(plot, count, index);
    let reach: u32 = half_width(plot, count) + 2;
    let a: u32 = price_y(bar.high as i128 * 24_000, low, high, plot);
    let b: u32 = price_y(bar.low as i128 * 24_000, low, high, plot);
    let (upper, lower) = if a <= b {
        (a, b)
    } else {
        (b, a)
    };
    let start: u32 = if x >= reach {
        x - reach
    } else {
        0
    };
    let left: u32 = if start >= plot.left {
        start
    } else {
        plot.left
    };
    let right: u32 = if x + reach <= plot.right {
        x + reach
    } else {
        plot.right
    };
    let raised: u32 = if upper >= 2 {
        upper - 2
    } else {
        0
    };
    let top: u32 = if raised >= plot.price_top {
        raised
    } else {
        plot.price_top
    };
    let bottom: u32 = if lower + 2 <= plot.price_bottom {
        lower + 2
    } else {
        plot.price_bottom
    };
    push_outline(out, Rect::new(left, top, right - left + 1, bottom - top + 1), LIVE);
}

fn push_bar(
    out: &mut Vec<Shape>,
    plot: Plot,
    low: i128,
    high: i128,
    bars: &Vec<Candle>,
    live: bool,
    most: u64,
    index: usize,
)
    requires
        plot_fits(plot),
        range_fits(low as int, high as int),
        index < bars@.len() <= 60,
        most == most_volume(bars@),
    ensures
        grew(
            final(out)@,
            old(out)@,
            bar_shapes(plot, low as int, high as int, bars@, live, index as int),
        ),
{
    let n: usize = bars.len();
    let bar = bars[index];
    let ghost s0 = out@;
    push_body(out, plot, low, high, n, index, bar);
    let ghost s1 = out@;
    let ghost a = seq![
        wick(plot, low as int, high as int, n as int, index as int, bar),
        body(plot, low as int, high as int, n as int, index as int, bar),
    ];
    let ghost b = if live && index + 1 == n {
        live_box(plot, low as int, high as int, n as int, index as int, bar)
    } else {
        Seq::empty()
    };
    let ghost c = if most > 0 {
        seq![volume_bar(plot, n as int, index as int, bar, most)]
    } else {
        Seq::empty()
    };
    if live && index + 1 == n {
        push_live_box(out, plot, low, high, n, index, bar);
    }
    assert(grew(out@, s1, b)) by {
        assert(shape_views(s1) + Seq::<ShapeView>::empty() =~= shape_views(s1));
    }
    let ghost s2 = out@;
    if most > 0 {
        let height: u32 = bar_height(bar.volume, most, plot.volume_bottom - plot.volume_top);
        let (left, width) = body_span(plot, n, index);
        push_fill(
            out,
            left,
            plot.volume_bottom - height + 1,
            width,
            height,
            dim(color_of(&bar)),
        );
    }
    assert(grew(out@, s2, c)) by {
        assert(shape_views(s2) + Seq::<ShapeView>::empty() =~= shape_views(s2));
    }
    proof {
        lemma_grew(s0, s1, s2, a, b);
        lemma_grew(s0, s2, out@, a + b, c);
    }
}

fn push_bars(
    out: &mut Vec<Shape>,
    plot: Plot,
    low: i128,
    high: i128,
    bars: &Vec<Candle>,
    live: bool,
)
    requires
        plot_fits(plot),
        range_fits(low as int, high as int),
        0 < bars@.len() <= 60,
    ensures
        grew(
            final(out)@,
            old(out)@,
            bars_shapes(plot, low as int, high as int, bars@, live, bars@.len() as int),
        ),
{
    let most: u64 = max_volume(bars);
    let ghost s0 = out@;
    let mut i: usize = 0;
    assert(shape_views(s0) + Seq::<ShapeView>::empty() =~= shape_views(s0));
    while i < bars.len()
        invariant
            i <= bars@.len() <= 60,
            plot_fits(plot),
            range_fits(low as int, high as int),
            most == most_volume(bars@),
            grew(
                out@,
                s0,
                bars_shapes(plot, low as int, high as int, bars@, live, i as int),
            ),
        decreases bars@.len() - i,
    {
        let ghost s = out@;
        push_bar(out, plot, low, high, bars, live, most, i);
        proof {
            lemma_grew(
                s0,
                s,
                out@,
                bars_shapes(plot, low as int, high as int, bars@, live, i as int),
                bar_shapes(plot, low as int, high as int, bars@, live, i as int),
            );
        }
        i += 1;
    }
}

/// The line of an average between the bars shown at `index - 1` and `index`, where both have one.
pub open spec fn average_step(
    plot: Plot,
    low: int,
    high: int,
    count: int,
    completed: Seq<Candle>,
    start: int,
    period: int,
    color: Color,
    index: int,
) -> Seq<ShapeView> {
    match (
        average_at(completed, period, start + index - 1),
        average_at(completed, period, start + index),
    ) {
        (Some(a), Some(b)) => if index >= 1 {
            seq![
                ShapeView::Line {
                    x0: bar_column(plot, count, index - 1),
                    y0: price_row(a, low, high, plot),
                    x1: bar_column(plot, count, index),
                    y1: price_row(b, low, high, plot),
                    color,
                },
            ]
        } else {
            Seq::empty()
        },
        _ => Seq::empty(),
    }
}

/// The line of an average through the first bars shown.
pub open spec fn average_lines(
    plot: Plot,
    low: int,
    high: int,
    count: int,
    completed: Seq<Candle>,
    start: int,
    period: int,
    color: Color,
    upto: int,
) -> Seq<ShapeView>
    decreases upto,
{
    if upto <= 0 {
        Seq::empty()
    } else {
        average_lines(plot, low, high, count, completed, start, period, color, upto - 1)
            + average_step(
            plot,
            low,
            high,
            count,
            completed,
            start,
            period,
            color,
            upto - 1,
        )
    }
}

fn push_average(
    out: &mut Vec<Shape>,
    plot: Plot,
    low: i128,
    high: i128,
    count: usize,
    completed: &Vec<Candle>,
    averages: &Vec<Option<i128>>,
    start: usize,
    period: usize,
    color: Color,
)
    requires
        plot_fits(plot),
        range_fits(low as int, high as int),
        is_period(period as int),
        averages@.len() == completed@.len(),
        start <= completed@.len(),
        completed@.len() - start <= count <= 60,
        forall|i: int|
            0 <= i < completed@.len() ==> (match #[trigger] averages@[i] {
                Some(v) => average_at(completed@, period as int, i) == Some(v as int) && in_units(
                    v as int,
                ),
                None => average_at(completed@, period as int, i) is None,
            }),
    ensures
        grew(
            final(out)@,
            old(out)@,
            average_lines(
                plot,
                low as int,
                high as int,
                count as int,
                completed@,
                start as int,
                period as int,
                color,
                completed@.len() - start,
            ),
        ),
{
    let ghost s0 = out@;
    let all: usize = completed.len();
    let shown: usize = all - start;
    let mut i: usize = 0;
    assert(shape_views(s0) + Seq::<ShapeView>::empty() =~= shape_views(s0));
    while i < shown
        invariant
            i <= shown,
            all == completed@.len(),
            shown == all - start,
            start <= completed@.len(),
            shown <= count <= 60,
            plot_fits(plot),
            range_fits(low as int, high as int),
            is_period(period as int),
            averages@.len() == completed@.len(),
            forall|k: int|
                0 <= k < completed@.len() ==> (match #[trigger] averages@[k] {
                    Some(v) => average_at(completed@, period as int, k) == Some(v as int)
                        && in_units(v as int),
                    None => average_at(completed@, period as int, k) is None,
                }),
            grew(
                out@,
                s0,
                average_lines(
                    plot,
                    low as int,
                    high as int,
                    count as int,
                    completed@,
                    start as int,
                    period as int,
                    color,
                    i as int,
                ),
            ),
        decreases shown - i,
    {
        let ghost s = out@;
        let ghost step = average_step(
            plot,
            low as int,
            high as int,
            count as int,
            completed@,
            start as int,
            period as int,
            color,
            i as int,
        );
        if i >= 1 {
            if let (Some(a), Some(b)) = (averages[start + i - 1], averages[start + i]) {
                let x0: u32 = bar_x(plot, count, i - 1);
                let x1: u32 = bar_x(plot, count, i);
                let y0: u32 = price_y(a, low, high, plot);
                let y1: u32 = price_y(b, low, high, plot);
                push_line(out, x0, y0, x1, y1, color);
            }
        }
        assert(grew(out@, s, step)) by {
            assert(shape_views(s) + Seq::<ShapeView>::empty() =~= shape_views(s));
            if i >= 1 {
                assert(match averages@[start + i - 1] {
                    Some(v) => average_at(completed@, period as int, start + i - 1) == Some(
                        v as int,
                    ),
                    None => average_at(completed@, period as int, start + i - 1) is None,
                });
            }
        }
        proof {
            lemma_grew(
                s0,
                s,
                out@,
                average_lines(
                    plot,
                    low as int,
                    high as int,
                    count as int,
                    completed@,
                    start as int,
                    period as int,
                    color,
                    i as int,
                ),
                step,
            );
        }
        i += 1;
    }
}

/// The prices at the first rows of the grid, on the right.
pub open spec fn price_labels(plot: Plot, low: int, high: int, count: int) -> Seq<ShapeView>
    decreases count,
{
    if count <= 0 {
        Seq::empty()
    } else {
        let row = count - 1;
        let y = plot.price_top + (plot.price_bottom - plot.price_top) * row / 4;
        price_labels(plot, low, high, count - 1) + seq![
            label(
                plot.right + 8,
                less(y, 3),
                price_text(4 * high - (high - low) * row, 96_000),
                FLAT,
                1,
            ),
        ]
    }
}

fn push_price_labels(out: &mut Vec<Shape>, plot: Plot, low: i128, high: i128)
    requires
        plot_fits(plot),
        range_fits(low as int, high as int),
    ensures
        grew(final(out)@, old(out)@, price_labels(plot, low as int, high as int, 5)),
{
    let ghost s0 = out@;
    let mut row: u32 = 0;
    assert(shape_views(s0) + Seq::<ShapeView>::empty() =~= shape_views(s0));
    while row < 5
        invariant
            row <= 5,
            plot_fits(plot),
            range_fits(low as int, high as int),
            grew(out@, s0, price_labels(plot, low as int, high as int, row as int)),
        decreases 5 - row,
    {
        let ghost s = out@;
        let height: u32 = plot.price_bottom - plot.price_top;
        proof {
            lemma_quarter(height as int, row as int);
            assert(-0x1_0000_0000_0000_0000 * 72_000 * 4 <= (high - low) * row
                <= 0x1_0000_0000_0000_0000 * 72_000 * 4) by (nonlinear_arith)
                requires
                    0 <= row <= 4,
                    -0x1_0000_0000_0000_0000 * 72_000 <= high - low
                        <= 0x1_0000_0000_0000_0000 * 72_000,
            ;
        }
        let y: u32 = plot.price_top + height * row / 4;
        let text_y: u32 = if y >= 3 {
            y - 3
        } else {
            0
        };
        let text = format_price(4 * high - (high - low) * row as i128, 96_000);
        push_text(out, plot.right + 8, text_y, text.as_str(), FLAT, 1);
        proof {
            lemma_grew(
                s0,
                s,
                out@,
                price_labels(plot, low as int, high as int, row as int),
                seq![label(plot.right + 8, text_y as int, text@, FLAT, 1)],
            );
        }
        row += 1;
    }
}

/// The time of a bar below the volumes: at its left, about it, or at its right, inside the plot.
pub open spec fn time_label(plot: Plot, bars: Seq<Candle>, place: int, index: int) -> ShapeView {
    let text = time_text(bars[index].time as int);
    let x = bar_column(plot, bars.len() as int, index);
    let wanted = if place == 0 {
        less(x, 2)
    } else if place == 1 {
        less(x, 15)
    } else {
        less(x, 30)
    };
    label(
        min(max(wanted, plot.left as int), less(plot.right as int, 30)),
        plot.volume_bottom + 10,
        text,
        FLAT,
        1,
    )
}

/// The times of the first bar, of the one in the middle and of the last.
pub open spec fn time_labels(plot: Plot, bars: Seq<Candle>) -> Seq<ShapeView> {
    let n = bars.len() as int;
    seq![
        time_label(plot, bars, 0, 0),
        time_label(plot, bars, 1, n / 2),
        time_label(plot, bars, 2, n - 1),
    ]
}

fn push_time_label(out: &mut Vec<Shape>, plot: Plot, bars: &Vec<Candle>, place: u32, index: usize)
    requires
        plot_fits(plot),
        index < bars@.len() <= 60,
    ensures
        grew(final(out)@, old(out)@, seq![time_label(plot, bars@, place as int, index as int)]),
{
    let text = format_time(bars[index].time);
    let x: u32 = bar_x(plot, bars.len(), index);
    let shift: u32 = if place == 0 {
        2
    } else if place == 1 {
        15
    } else {
        30
    };
    let wanted: u32 = if x >= shift {
        x - shift
    } else {
        0
    };
    let inside: u32 = if wanted >= plot.left {
        wanted
    } else {
        plot.left
    };
    let last: u32 = if plot.right >= 30 {
        plot.right - 30
    } else {
        0
    };
    let label_x: u32 = if inside <= last {
        inside
    } else {
        last
    };
    push_text(out, label_x, plot.volume_bottom + 10, text.as_str(), FLAT, 1);
}

fn push_time_labels(out: &mut Vec<Shape>, plot: Plot, bars: &Vec<Candle>)
    requires
        plot_fits(plot),
        0 < bars@.len() <= 60,
    ensures
        grew(final(out)@, old(out)@, time_labels(plot, bars@)),
{
    let n: usize = bars.len();
    let ghost s0 = out@;
    push_time_label(out, plot, bars, 0, 0);
    let ghost s1 = out@;
    push_time_label(out, plot, bars, 1, n / 2);
    let ghost s2 = out@;
    push_time_label(out, plot, bars, 2, n - 1);
    proof {
        let a = seq![time_label(plot, bars@, 0, 0)];
        let b = seq![time_label(plot, bars@, 1, n as int / 2)];
        let c = seq![time_label(plot, bars@, 2, n - 1)];
        lemma_grew(s0, s1, s2, a, b);
        lemma_grew(s0, s2, out@, a + b, c);
        assert(a + b + c =~= time_labels(plot, bars@));
    }
}

/// The bars of a panel, with their averages and labels.
pub open spec fn contents_shapes(
    plot: Plot,
    completed: Seq<Candle>,
    forming: Option<Candle>,
) -> Seq<ShapeView> {
    let start = first_shown(completed, forming);
    let bars = shown_bars(completed, forming);
    let n = bars.len() as int;
    let upto = completed.len() - start;
    let (low, high) = price_range(completed, start, bars);
    bars_shapes(plot, low, high, bars, forming is Some, n) + average_lines(
        plot,
        low,
        high,
        n,
        completed,
        start,
        5,
        MA5_COLOR,
        upto,
    ) + average_lines(plot, low, high, n, completed, start, 20, MA20_COLOR, upto) + average_lines(
        plot,
        low,
        high,
        n,
        completed,
        start,
        60,
        MA60_COLOR,
        upto,
    ) + average_lines(plot, low, high, n, completed, start, 120, MA120_COLOR, upto)
        + price_labels(plot, low, high, 5) + time_labels(plot, bars)
}

/// All that is drawn of a panel. One without bars is only framed.
pub open spec fn panel_shapes(
    panel: Rect,
    completed: Seq<Candle>,
    forming: Option<Candle>,
    progress: Option<Ratio>,
    name: Seq<char>,
    accent: Color,
) -> Seq<ShapeView> {
    let plot = plot_of(panel);
    frame_shapes(panel, name, accent) + legend_shapes(panel) + live_shapes(panel, progress)
        + grid_shapes(plot) + (if shown_bars(completed, forming).len() == 0 {
        Seq::empty()
    } else {
        contents_shapes(plot, completed, forming)
    })
}

fn push_contents(
    out: &mut Vec<Shape>,
    plot: Plot,
    completed: &Vec<Candle>,
    forming: Option<Candle>,
    start: usize,
    bars: &Vec<Candle>,
)
    requires
        plot_fits(plot),
        start == first_shown(completed@, forming),
        bars@ == shown_bars(completed@, forming),
        0 < bars@.len() <= 60,
    ensures
        grew(final(out)@, old(out)@, contents_shapes(plot, completed@, forming)),
{
    let n: usize = bars.len();
    let a5 = moving_average_series(completed, 5);
    let a20 = moving_average_series(completed, 20);
    let a60 = moving_average_series(completed, 60);
    let a120 = moving_average_series(completed, 120);
    let (l0, h0) = range_of_bars(bars);
    let (l1, h1) = fold_averages(&a5, completed, 5, start, l0, h0);
    let (l2, h2) = fold_averages(&a20, completed, 20, start, l1, h1);
    let (l3, h3) = fold_averages(&a60, completed, 60, start, l2, h2);
    let (l4, h4) = fold_averages(&a120, completed, 120, start, l3, h3);
    let (low, high) = widened(l4, h4);
    assert((low as int, high as int) == price_range(completed@, start as int, bars@));
    let live = forming.is_some();
    let ghost l = low as int;
    let ghost h = high as int;
    let ghost st = start as int;
    let ghost c = completed@;
    let ghost upto = completed@.len() - start;
    let ghost s0 = out@;
    push_bars(out, plot, low, high, bars, live);
    let ghost s1 = out@;
    let ghost x1 = bars_shapes(plot, l, h, bars@, live, n as int);
    push_average(out, plot, low, high, n, completed, &a5, start, 5, MA5_COLOR);
    let ghost s2 = out@;
    let ghost x2 = average_lines(plot, l, h, n as int, c, st, 5, MA5_COLOR, upto);
    push_average(out, plot, low, high, n, completed, &a20, start, 20, MA20_COLOR);
    let ghost s3 = out@;
    let ghost x3 = average_lines(plot, l, h, n as int, c, st, 20, MA20_COLOR, upto);
    push_average(out, plot, low, high, n, completed, &a60, start, 60, MA60_COLOR);
    let ghost s4 = out@;
    let ghost x4 = average_lines(plot, l, h, n as int, c, st, 60, MA60_COLOR, upto);
    push_average(out, plot, low, high, n, completed, &a120, start, 120, MA120_COLOR);
    let ghost s5 = out@;
    let ghost x5 = average_lines(plot, l, h, n as int, c, st, 120, MA120_COLOR, upto);
    push_price_labels(out, plot, low, high);
    let ghost s6 = out@;
    let ghost x6 = price_labels(plot, l, h, 5);
    push_time_labels(out, plot, bars);
    proof {
        let x7 = time_labels(plot, bars@);
        lemma_grew(s0, s1, s2, x1, x2);
        lemma_grew(s0, s2, s3, x1 + x2, x3);
        lemma_grew(s0, s3, s4, x1 + x2 + x3, x4);
        lemma_grew(s0, s4, s5, x1 + x2 + x3 + x4, x5);
        lemma_grew(s0, s5, s6, x1 + x2 + x3 + x4 + x5, x6);
        lemma_grew(s0, s6, out@, x1 + x2 + x3 + x4 + x5 + x6, x7);
    }
}

fn panel_layout(panel: Rect, frame: &TimeframeSeries, name: &str, accent: Color) -> (shapes: Vec<
    Shape,
>)
    requires
        panel_fits(panel),
        progress_fits(frame.forming_progress_pct),
    ensures
        shape_views(shapes@) == panel_shapes(
            panel,
            frame.completed@,
            frame.forming,
            frame.forming_progress_pct,
            name@,
            accent,
        ),
        all_drawable(shape_views(shapes@)),
{
    let mut out: Vec<Shape> = Vec::new();
    let ghost s0 = out@;
    assert(shape_views(s0) =~= Seq::empty());
    push_frame(&mut out, panel, name, accent);
    let ghost s1 = out@;
    let ghost x1 = frame_shapes(panel, name@, accent);
    push_legend(&mut out, panel);
    let ghost s2 = out@;
    let ghost x2 = legend_shapes(panel);
    push_live(&mut out, panel, frame.forming_progress_pct);
    let ghost s3 = out@;
    let ghost x3 = live_shapes(panel, frame.forming_progress_pct);
    let plot = plot_in(panel);
    push_grid(&mut out, plot);
    let ghost s4 = out@;
    let ghost x4 = grid_shapes(plot);
    proof {
        lemma_grew(s0, s1, s2, x1, x2);
        lemma_grew(s0, s2, s3, x1 + x2, x3);
        lemma_grew(s0, s3, s4, x1 + x2 + x3, x4);
    }
    let (start, bars) = bars_shown(&frame.completed, frame.forming);
    let ghost head = x1 + x2 + x3 + x4;
    if bars.len() == 0 {
        assert(head + Seq::<ShapeView>::empty() =~= head);
        assert(shape_views(s0) + head =~= head);
        return out;
    }
    push_contents(&mut out, plot, &frame.completed, frame.forming, start, &bars);
    proof {
        let x5 = contents_shapes(plot, frame.completed@, frame.forming);
        lemma_grew(s0, s4, out@, head, x5);
        assert(shape_views(s0) + (head + x5) =~= head + x5);
    }
    out
}

/// Draws one panel.
pub fn render_panel(
    canvas: &mut Canvas,
    panel: Rect,
    frame: &TimeframeSeries,
    label: &str,
    accent: Color,
)
    requires
        old(canvas).wf(),
        panel_fits(panel),
        progress_fits(frame.forming_progress_pct),
    ensures
        final(canvas).wf(),
        final(canvas).width_spec() == old(canvas).width_spec(),
        final(canvas).height_spec() == old(canvas).height_spec(),
        final(canvas).pixels() == all_painted(
            old(canvas).pixels(),
            panel_shapes(
                panel,
                frame.completed@,
                frame.forming,
                frame.forming_progress_pct,
                label@,
                accent,
            ),
        ),
{
    let shapes = panel_layout(panel, frame, label, accent);
    proof {
        assert forall|i: int| 0 <= i < shapes@.len() implies drawable((#[trigger] shapes@[i])@) by {
            assert(shape_views(shapes@)[i] == shapes@[i]@);
        }
    }
    canvas.paint_all(&shapes);
}

/// The panel of an interval, drawn over a picture.
#[verifier::opaque]
pub open spec fn with_panel(
    pixels: Pixels,
    one_minute: Seq<Candle>,
    as_of: i64,
    minutes: u32,
    panel: Rect,
    name: Seq<char>,
    accent: Color,
) -> Pixels {
    all_painted(
        pixels,
        panel_shapes(
            panel,
            completed_at(one_minute, minutes, as_of),
            forming_at(one_minute, minutes, as_of),
            progress_at(one_minute, minutes, as_of),
            name,
            accent,
        ),
    )
}

/// The composite chart: the panels of one, three, five and fifteen minutes, two by two.
pub open spec fn composite(one_minute: Seq<Candle>, as_of: i64) -> Pixels {
    let ground = Seq::new(1_000, |y: int| Seq::new(1_600, |x: int| BG));
    let first = with_panel(
        ground,
        one_minute,
        as_of,
        1,
        Rect { x: 16, y: 16, width: 776, height: 476 },
        "1 MIN"@,
        0x4f91ff,
    );
    let second = with_panel(
        first,
        one_minute,
        as_of,
        3,
        Rect { x: 808, y: 16, width: 776, height: 476 },
        "3 MIN"@,
        0x8274ff,
    );
    let third = with_panel(
        second,
        one_minute,
        as_of,
        5,
        Rect { x: 16, y: 508, width: 776, height: 476 },
        "5 MIN"@,
        0x42c699,
    );
    with_panel(
        third,
        one_minute,
        as_of,
        15,
        Rect { x: 808, y: 508, width: 776, height: 476 },
        "15 MIN"@,
        0xff9747,
    )
}

fn draw_interval(
    canvas: &mut Canvas,
    one_minute: &[Candle],
    as_of: i64,
    minutes: u32,
    panel: Rect,
    name: &str,
    accent: Color,
)
    requires
        old(canvas).wf(),
        0 < minutes <= 60,
        all_datable(one_minute@, minutes * 60),
        datable(as_of as int, minutes * 60),
        panel_fits(panel),
    ensures
        final(canvas).wf(),
        final(canvas).width_spec() == old(canvas).width_spec(),
        final(canvas).height_spec() == old(canvas).height_spec(),
        final(canvas).pixels() == with_panel(
            old(canvas).pixels(),
            one_minute@,
            as_of,
            minutes,
            panel,
            name@,
            accent,
        ),
{
    let frame = timeframe_series(one_minute, minutes, as_of);
    proof {
        reveal(with_panel);
        let m = minutes * 60;
        let b = crate::candles::bucket_of(as_of as int, m);
        assert(0 <= as_of - b < m) by {
            assert(0 <= as_of as int - (as_of as int / m) * m < m) by (nonlinear_arith)
                requires
                    m > 0,
            ;
        }
    }
    render_panel(canvas, panel, &frame, name, accent);
}

/// The composite chart as a picture.
pub fn composite_canvas(one_minute: &[Candle], as_of_epoch: i64) -> (canvas: Canvas)
    requires
        all_datable(one_minute@, 900),
        datable(as_of_epoch as int, 900),
    ensures
        canvas.wf(),
        canvas.width_spec() == COMPOSITE_WIDTH,
        canvas.height_spec() == COMPOSITE_HEIGHT,
        canvas.pixels() == composite(one_minute@, as_of_epoch),
{
    let mut canvas = Canvas::filled(COMPOSITE_WIDTH, COMPOSITE_HEIGHT, BG);
    let margin: u32 = 16;
    let gap: u32 = 16;
    let width: u32 = (COMPOSITE_WIDTH - margin * 2 - gap) / 2;
    let height: u32 = (COMPOSITE_HEIGHT - margin * 2 - gap) / 2;
    let right: u32 = margin + width + gap;
    let below: u32 = margin + height + gap;
    let first = Rect::new(margin, margin, width, height);
    let second = Rect::new(right, margin, width, height);
    let third = Rect::new(margin, below, width, height);
    let fourth = Rect::new(right, below, width, height);
    proof {
        lemma_shorter_buckets(one_minute@, as_of_epoch as int);
    }
    draw_interval(&mut canvas, one_minute, as_of_epoch, 1, first, "1 MIN", 0x4f91ff);
    draw_interval(&mut canvas, one_minute, as_of_epoch, 3, second, "3 MIN", 0x8274ff);
    draw_interval(&mut canvas, one_minute, as_of_epoch, 5, third, "5 MIN", 0x42c699);
    draw_interval(&mut canvas, one_minute, as_of_epoch, 15, fourth, "15 MIN", 0xff9747);
    canvas
}

/// The bytes begin as those of every PNG do.
pub open spec fn is_png(bytes: Seq<u8>) -> bool {
    &&& bytes.len() >= 8
    &&& bytes.take(8) == seq![137u8, 80u8, 78u8, 71u8, 13u8, 10u8, 26u8, 10u8]
}

/// What `PngEncoder` of the `image` crate writes, with its default settings, for the bytes of a
/// picture of red, green and blue and its width and height, or the text of its error.
pub uninterp spec fn png_of(raw: Seq<u8>, width: u32, height: u32) -> Result<Seq<u8>, Seq<char>>;

/// Encodes a picture: `image::codecs::png::PngEncoder::write_image` with eight bits each of red,
/// green and blue.
///
/// The result is a function of the bytes and the size; what is written begins with the signature of
/// the format. The encoder panics where there are not three bytes for each pixel, so the length is
/// demanded.
#[verifier::external_body]
fn encode_png(raw: &Vec<u8>, width: u32, height: u32) -> (png: Result<Vec<u8>, String>)
    requires
        raw@.len() == 3 * width * height,
    ensures
        match png {
            Ok(bytes) => png_of(raw@, width, height) == Ok::<Seq<u8>, Seq<char>>(bytes@) && is_png(
                bytes@,
            ),
            Err(message) => png_of(raw@, width, height) == Err::<Seq<u8>, Seq<char>>(message@),
        },
{
    let mut png = Vec::new();
    image::codecs::png::PngEncoder::new(&mut png).write_image(
        raw,
        width,
        height,
        image::ExtendedColorType::Rgb8,
    ).map_err(|error| error.to_string())?;
    Ok(png)
}

/// The chart's bytes as a PNG, or the encoder's error.
pub fn settle_png(encoded: Result<Vec<u8>, String>) -> (png: Result<Vec<u8>, AppError>)
    ensures
        match encoded {
            Ok(bytes) => png == Ok::<Vec<u8>, AppError>(bytes),
            Err(message) => png matches Err(AppError::Parse(text)) && text@
                == "차트 PNG 인코딩 실패: "@ + message@,
        },
{
    match encoded {
        Ok(bytes) => Ok(bytes),
        Err(message) => Err(
            AppError::Parse(joined("차트 PNG 인코딩 실패: ", message.as_str())),
        ),
    }
}

/// Renders the composite chart at a moment.
pub fn render_composite_png(one_minute: &[Candle], as_of_epoch: i64) -> (png: Result<
    Vec<u8>,
    AppError,
>)
    requires
        all_datable(one_minute@, 900),
        datable(as_of_epoch as int, 900),
    ensures
        match png_of(
            Canvas::all_bytes(composite(one_minute@, as_of_epoch)),
            COMPOSITE_WIDTH,
            COMPOSITE_HEIGHT,
        ) {
            Ok(bytes) => png matches Ok(written) && written@ == bytes && is_png(written@),
            Err(message) => png matches Err(AppError::Parse(text)) && text@
                == "차트 PNG 인코딩 실패: "@ + message,
        },
{
    let canvas = composite_canvas(one_minute, as_of_epoch);
    let raw = canvas.as_raw();
    settle_png(encode_png(&raw, COMPOSITE_WIDTH, COMPOSITE_HEIGHT))
}

proof fn lemma_share(below: int, all: int, span: int)
    requires
        0 <= below <= all,
        0 < all,
        0 <= span,
    ensures
        0 <= (2 * (below * span) + all) / (2 * all) <= span,
        -all <= 2 * all * ((2 * (below * span) + all) / (2 * all)) - 2 * (below * span) <= all,
{
    let x = below * span;
    let n = 2 * x + all;
    let m = 2 * all;
    let q = n / m;
    assert(0 <= x <= all * span) by (nonlinear_arith)
        requires
            x == below * span,
            0 <= below <= all,
            0 <= span,
    ;
    vstd::arithmetic::div_mod::lemma_fundamental_div_mod(n, m);
    vstd::arithmetic::div_mod::lemma_mod_bound(n, m);
    vstd::arithmetic::div_mod::lemma_div_pos_is_pos(n, m);
    if q > span {
        assert(m * q >= m * (span + 1)) by (nonlinear_arith)
            requires
                q >= span + 1,
                0 < m,
        ;
        assert(m * (span + 1) == 2 * (all * span) + m) by (nonlinear_arith)
            requires
                m == 2 * all,
        ;
    }
}

/// The higher a price, the higher it is drawn: the row of the higher of two prices is not below that
/// of the other. The top of the plot is the highest price of its range, and the bottom the lowest.
pub proof fn higher_prices_are_drawn_higher(a: int, b: int, low: int, high: int, plot: Plot)
    requires
        low < high,
        b <= a,
        plot.price_top <= plot.price_bottom,
    ensures
        plot.price_top <= price_row(a, low, high, plot) <= price_row(b, low, high, plot)
            <= plot.price_bottom,
        price_row(high, low, high, plot) == plot.price_top,
        price_row(low, low, high, plot) == plot.price_bottom,
{
    let span = plot.price_bottom - plot.price_top;
    let all = high - low;
    if 0 < high - a < all {
        lemma_share(high - a, all, span);
    }
    if 0 < high - b < all {
        lemma_share(high - b, all, span);
    }
    if 0 < high - a < all && 0 < high - b < all {
        assert((high - a) * span <= (high - b) * span) by (nonlinear_arith)
            requires
                high - a <= high - b,
                0 <= span,
        ;
        vstd::arithmetic::div_mod::lemma_div_is_ordered(
            2 * ((high - a) * span) + all,
            2 * ((high - b) * span) + all,
            2 * all,
        );
    }
}

/// A price within the range is drawn as far below the top as its share of the range, to within half a
/// row.
pub proof fn price_is_drawn_at_its_share(value: int, low: int, high: int, plot: Plot)
    requires
        low < high,
        low <= value <= high,
        plot.price_top <= plot.price_bottom,
    ensures
        ({
            let span = plot.price_bottom - plot.price_top;
            let below = price_row(value, low, high, plot) - plot.price_top;
            -(high - low) <= 2 * (high - low) * below - 2 * ((high - value) * span) <= high - low
        }),
{
    let span = plot.price_bottom - plot.price_top;
    let all = high - low;
    lemma_share(high - value, all, span);
    if high - value == 0 {
        assert((high - value) * span == 0) by (nonlinear_arith)
            requires
                high - value == 0,
        ;
        assert(2 * all * 0 == 0) by (nonlinear_arith);
    } else if high - value == all {
        assert(2 * all * span == 2 * ((high - value) * span)) by (nonlinear_arith)
            requires
                high - value == all,
        ;
    }
}

/// The price that the axis tells at a line of the grid is drawn at that line, or in the row below it
/// where the line lies between two rows. The first line tells the highest price and the last the
/// lowest.
pub proof fn axis_tells_what_is_drawn(plot: Plot, low: int, high: int, line: int, value: int)
    requires
        low < high,
        plot.price_top <= plot.price_bottom,
        0 <= line <= 4,
        4 * value == 4 * high - (high - low) * line,
    ensures
        ({
            let y = plot.price_top + (plot.price_bottom - plot.price_top) * line / 4;
            &&& price_labels(plot, low, high, 5).len() == 5
            &&& grid_rows(plot, 5).len() == 5
            &&& grid_rows(plot, 5)[line] == (ShapeView::Fill {
                x: plot.left as int,
                y,
                width: plot.right - plot.left + 1,
                height: 1,
                color: 0x2a3344,
            })
            &&& price_labels(plot, low, high, 5)[line] matches ShapeView::Text { x, y: text_y, text, .. }
                && x == plot.right + 8 && (y >= 3 ==> text_y == y - 3) && text == price_text(
                4 * value,
                96_000,
            )
            &&& y <= price_row(value, low, high, plot) <= y + 1
        }),
{
    reveal_with_fuel(price_labels, 6);
    reveal_with_fuel(grid_rows, 6);
    let span = plot.price_bottom - plot.price_top;
    let all = high - low;
    let labels = price_labels(plot, low, high, 5);
    assert((high - low) * line == 4 * (high - value));
    assert(0 <= all * line <= 4 * all) by (nonlinear_arith)
        requires
            0 < all,
            0 <= line <= 4,
    ;
    lemma_share(high - value, all, span);
    assert(4 * ((high - value) * span) == all * (span * line)) by (nonlinear_arith)
        requires
            4 * (high - value) == all * line,
    ;
    let t = span * line;
    let r = (2 * ((high - value) * span) + all) / (2 * all);
    let d = 8 * r - 2 * t;
    assert(all * d == 4 * (2 * all * r) - 2 * (all * t)) by (nonlinear_arith)
        requires
            d == 8 * r - 2 * t,
    ;
    assert(-4 * all <= all * d <= 4 * all);
    assert(-4 <= d <= 4) by (nonlinear_arith)
        requires
            -4 * all <= all * d <= 4 * all,
            0 < all,
    ;
    if high - value == 0 {
        assert(line == 0) by (nonlinear_arith)
            requires
                all * line == 0,
                0 < all,
                0 <= line,
        ;
    } else if high - value == all {
        assert(line == 4) by (nonlinear_arith)
            requires
                all * line == 4 * all,
                0 < all,
        ;
    }
}

/// Bars are drawn from left to right in their order, each within the plot.
pub proof fn later_bars_are_drawn_further_right(plot: Plot, count: int, i: int, j: int)
    requires
        plot_fits(plot),
        0 <= i <= j < count <= 60,
    ensures
        plot.left <= bar_column(plot, count, i) <= bar_column(plot, count, j) <= plot.right,
        ({
            let w = plot.right - plot.left + 1;
            let x = bar_column(plot, count, i) - plot.left;
            0 <= (2 * i + 1) * w - 2 * count * x < 2 * count
        }),
{
    lemma_bar_column(plot, count, i);
    lemma_bar_column(plot, count, j);
    let w = plot.right - plot.left + 1;
    assert((2 * i + 1) * w <= (2 * j + 1) * w) by (nonlinear_arith)
        requires
            i <= j,
            0 <= w,
    ;
    vstd::arithmetic::div_mod::lemma_div_is_ordered((2 * i + 1) * w, (2 * j + 1) * w, 2 * count);
    vstd::arithmetic::div_mod::lemma_fundamental_div_mod((2 * i + 1) * w, 2 * count);
    vstd::arithmetic::div_mod::lemma_mod_bound((2 * i + 1) * w, 2 * count);
}

/// A panel shows the last bars in their order, sixty at most, and the forming one as the last of them.
pub proof fn last_bars_are_shown(completed: Seq<Candle>, forming: Option<Candle>)
    ensures
        ({
            let bars = shown_bars(completed, forming);
            let all = if forming is Some {
                completed.push(forming->0)
            } else {
                completed
            };
            &&& bars.len() == if all.len() <= 60 {
                all.len() as int
            } else {
                60
            }
            &&& forall|k: int|
                0 < k <= bars.len() ==> #[trigger] bars[bars.len() - k] == all[all.len() - k]
        }),
{
    let bars = shown_bars(completed, forming);
    let all = if forming is Some {
        completed.push(forming->0)
    } else {
        completed
    };
    assert forall|k: int| 0 < k <= bars.len() implies #[trigger] bars[bars.len() - k]
        == all[all.len() - k] by {}
}

proof fn lemma_bars_range(bars: Seq<Candle>, i: int)
    requires
        0 <= i < bars.len(),
    ensures
        bars_low(bars) <= bars[i].low * 24_000,
        bars[i].high * 24_000 <= bars_high(bars),
    decreases bars.len(),
{
    if bars.len() > 1 {
        if i < bars.len() - 1 {
            lemma_bars_range(bars.drop_last(), i);
        }
    }
}

/// The range of bars goes from the low of one of them to the high of one of them.
pub proof fn range_of_bars_is_reached(bars: Seq<Candle>)
    requires
        0 < bars.len(),
    ensures
        exists|i: int| 0 <= i < bars.len() && bars_low(bars) == (#[trigger] bars[i]).low * 24_000,
        exists|i: int| 0 <= i < bars.len() && bars_high(bars) == (#[trigger] bars[i]).high * 24_000,
    decreases bars.len(),
{
    if bars.len() > 1 {
        range_of_bars_is_reached(bars.drop_last());
        let i = choose|i: int|
            0 <= i < bars.drop_last().len() && bars_low(bars.drop_last()) == (
            #[trigger] bars.drop_last()[i]).low * 24_000;
        let j = choose|j: int|
            0 <= j < bars.drop_last().len() && bars_high(bars.drop_last()) == (
            #[trigger] bars.drop_last()[j]).high * 24_000;
        assert(bars[i] == bars.drop_last()[i] && bars[j] == bars.drop_last()[j]);
        let n = bars.len() - 1;
        if bars_low(bars) != bars[n].low * 24_000 {
            assert(bars_low(bars) == bars[i].low * 24_000);
        }
        if bars_high(bars) != bars[n].high * 24_000 {
            assert(bars_high(bars) == bars[j].high * 24_000);
        }
    } else {
        assert(bars_low(bars) == bars[0].low * 24_000);
        assert(bars_high(bars) == bars[0].high * 24_000);
    }
}

proof fn lemma_with_averages(
    completed: Seq<Candle>,
    period: int,
    start: int,
    end: int,
    low: int,
    high: int,
)
    ensures
        low_with(completed, period, start, end, low) <= low,
        high_with(completed, period, start, end, high) >= high,
        forall|i: int|
            start <= i < end ==> (#[trigger] average_at(completed, period, i) matches Some(v)
                ==> low_with(completed, period, start, end, low) <= v <= high_with(
                completed,
                period,
                start,
                end,
                high,
            )),
    decreases end - start,
{
    if end > start {
        lemma_with_averages(completed, period, start, end - 1, low, high);
    }
}

/// Everything that a panel shows lies within its range of prices: each bar from its low to its high,
/// and each average. The range reaches further than that by a twenty-fifth at most, or by a
/// two-hundredth of a single price.
pub proof fn range_holds_what_is_shown(completed: Seq<Candle>, start: int, bars: Seq<Candle>)
    requires
        0 < bars.len(),
        0 <= start <= completed.len(),
        forall|i: int| 0 <= i < bars.len() ==> (#[trigger] bars[i]).low <= bars[i].high,
    ensures
        ({
            let (low, high) = price_range(completed, start, bars);
            let (a, b) = bare_range(completed, start, bars);
            &&& low < high
            &&& low <= a <= b <= high
            &&& a < b ==> 25 * (a - low) <= b - a && 25 * (high - b) <= b - a && b - a - 25 < 25 * (a
                - low)
            &&& a == b ==> a - low == high - b && 200 * (high - b) <= max(b, 24_000) < 200 * (high - b)
                + 200
            &&& forall|i: int|
                0 <= i < bars.len() ==> low <= (#[trigger] bars[i]).low * 24_000 && bars[i].high
                    * 24_000 <= high
            &&& forall|period: int, i: int|
                (period == 5 || period == 20 || period == 60 || period == 120) && start <= i
                    < completed.len() ==> (#[trigger] average_at(completed, period, i) matches Some(v)
                    ==> low <= v <= high)
        }),
{
    let n = completed.len() as int;
    let l0 = bars_low(bars);
    let h0 = bars_high(bars);
    let l1 = low_with(completed, 5, start, n, l0);
    let h1 = high_with(completed, 5, start, n, h0);
    let l2 = low_with(completed, 20, start, n, l1);
    let h2 = high_with(completed, 20, start, n, h1);
    let l3 = low_with(completed, 60, start, n, l2);
    let h3 = high_with(completed, 60, start, n, h2);
    lemma_with_averages(completed, 5, start, n, l0, h0);
    lemma_with_averages(completed, 20, start, n, l1, h1);
    lemma_with_averages(completed, 60, start, n, l2, h2);
    lemma_with_averages(completed, 120, start, n, l3, h3);
    assert forall|i: int| 0 <= i < bars.len() implies l0 <= (#[trigger] bars[i]).low * 24_000
        && bars[i].high * 24_000 <= h0 by {
        lemma_bars_range(bars, i);
    }
    assert(l0 <= bars[0].low * 24_000 <= bars[0].high * 24_000 <= h0);
}

/// An average lies between the least and the greatest close that it is taken over, and each step
/// takes in one close and leaves out another. There is one as soon as there are enough bars.
pub proof fn average_is_of_the_last_closes(
    completed: Seq<Candle>,
    period: int,
    index: int,
    least: int,
    most: int,
)
    requires
        is_period(period),
        0 <= index < completed.len(),
        forall|i: int|
            0 <= i && index - period < i <= index ==> least <= (#[trigger] completed[i]).close
                <= most,
    ensures
        average_at(completed, period, index) is Some <==> period <= index + 1,
        average_at(completed, period, index) matches Some(v) ==> least * 24_000 <= v <= most * 24_000,
        average_at(completed, period, index) is Some && index >= period ==> (average_at(
            completed,
            period,
            index,
        )->0 - average_at(completed, period, index - 1)->0) * period == 24_000 * (
        completed[index].close - completed[index - period].close),
{
    if period <= index + 1 {
        let from = index + 1 - period;
        let sum = field_sum(completed, close_of(), from, index + 1);
        lemma_sum_between(completed, from, index + 1, least, most);
        let k = 24_000int / period;
        assert(k * period == 24_000);
        lemma_scaled_between(sum, k, period, least, most);
        if index >= period {
            lemma_field_sum_slide(completed, close_of(), from - 1, index);
            let before = field_sum(completed, close_of(), from - 1, index);
            assert(field_sum(completed, close_of(), from, index + 1) == field_sum(
                completed,
                close_of(),
                from,
                index,
            ) + completed[index].close);
            lemma_scaled_step(
                sum,
                before,
                k,
                period,
                completed[index].close - completed[index - period].close,
            );
        }
    }
}

proof fn lemma_scaled_between(sum: int, k: int, period: int, least: int, most: int)
    by (nonlinear_arith)
    requires
        0 < period,
        0 < k,
        k * period == 24_000,
        least * period <= sum <= most * period,
    ensures
        least * 24_000 <= sum * k <= most * 24_000,
{
}

proof fn lemma_scaled_step(sum: int, before: int, k: int, period: int, change: int)
    by (nonlinear_arith)
    requires
        k * period == 24_000,
        sum - before == change,
    ensures
        (sum * k - before * k) * period == 24_000 * change,
{
}

proof fn lemma_sum_between(bars: Seq<Candle>, from: int, to: int, least: int, most: int)
    requires
        0 <= from <= to <= bars.len(),
        forall|i: int| from <= i < to ==> least <= (#[trigger] bars[i]).close <= most,
    ensures
        least * (to - from) <= field_sum(bars, close_of(), from, to) <= most * (to - from),
    decreases to - from,
{
    if from < to {
        lemma_sum_between(bars, from, to - 1, least, most);
        assert(least * (to - from) == least * (to - 1 - from) + least) by (nonlinear_arith);
        assert(most * (to - from) == most * (to - 1 - from) + most) by (nonlinear_arith);
    } else {
        assert(least * 0 == 0 && most * 0 == 0);
    }
}

/// A bar is drawn from the row of its high down to the row of its low, its body between those of its
/// open and its close, red where it rose and blue where it fell. The forming bar alone is boxed.
pub proof fn bar_is_drawn_between_its_prices(
    plot: Plot,
    low: int,
    high: int,
    bars: Seq<Candle>,
    live: bool,
    index: int,
)
    requires
        plot_fits(plot),
        low < high,
        0 <= index < bars.len() <= 60,
        bars[index].low <= bars[index].open <= bars[index].high,
        bars[index].low <= bars[index].close <= bars[index].high,
    ensures
        ({
            let bar = bars[index];
            let n = bars.len() as int;
            let x = bar_column(plot, n, index);
            let row = |price: u64| price_row(price * 24_000, low, high, plot);
            let shapes = bar_shapes(plot, low, high, bars, live, index);
            let boxed = live && index == n - 1;
            let hue: Color = if bar.close > bar.open {
                0xeb4958
            } else if bar.close < bar.open {
                0x3980e8
            } else {
                0xaeb5c2
            };
            let traded = exists|i: int| 0 <= i < n && (#[trigger] bars[i]).volume > 0;
            &&& shapes.len() == 2 + (if boxed {
                4int
            } else {
                0
            }) + (if traded {
                1int
            } else {
                0
            })
            &&& shapes[0] == (ShapeView::Fill {
                x,
                y: row(bar.high),
                width: 1,
                height: row(bar.low) - row(bar.high) + 1,
                color: hue,
            })
            &&& shapes[1] matches ShapeView::Fill { x: left, y, width, height, color } && {
                &&& color == hue
                &&& plot.left <= left <= x < left + width
                &&& width <= 9
                &&& row(bar.high) <= y
                &&& bar.close >= bar.open ==> y == row(bar.close)
                &&& bar.close <= bar.open ==> y == row(bar.open)
                &&& bar.close >= bar.open ==> row(bar.open) <= y + height - 1 <= row(bar.open) + 1
                &&& bar.close <= bar.open ==> row(bar.close) <= y + height - 1 <= row(bar.close) + 1
                &&& y + height - 1 <= plot.price_bottom
            }
            &&& traded ==> (shapes.last() matches ShapeView::Fill { y, height, .. } && y + height - 1
                == plot.volume_bottom)
        }),
{
    let bar = bars[index];
    let n = bars.len() as int;
    higher_prices_are_drawn_higher(bar.high * 24_000, bar.low * 24_000, low, high, plot);
    higher_prices_are_drawn_higher(bar.high * 24_000, bar.open * 24_000, low, high, plot);
    higher_prices_are_drawn_higher(bar.high * 24_000, bar.close * 24_000, low, high, plot);
    if bar.close >= bar.open {
        higher_prices_are_drawn_higher(bar.close * 24_000, bar.open * 24_000, low, high, plot);
    }
    if bar.close <= bar.open {
        higher_prices_are_drawn_higher(bar.open * 24_000, bar.close * 24_000, low, high, plot);
    }
    lemma_bar_column(plot, n, index);
    lemma_most_volume(bars);
    assert(outline(0, 0, 1, 1, LIVE).len() == 4);
}

/// The most volume is that of a bar, and no bar has more.
proof fn lemma_most_volume(bars: Seq<Candle>)
    ensures
        forall|i: int| 0 <= i < bars.len() ==> (#[trigger] bars[i]).volume <= most_volume(bars),
        most_volume(bars) > 0 <==> exists|i: int|
            0 <= i < bars.len() && (#[trigger] bars[i]).volume > 0,
        bars.len() > 0 ==> exists|i: int|
            0 <= i < bars.len() && (#[trigger] bars[i]).volume == most_volume(bars),
    decreases bars.len(),
{
    if bars.len() > 0 {
        let init = bars.drop_last();
        lemma_most_volume(init);
        let n = bars.len() - 1;
        assert forall|i: int| 0 <= i < bars.len() implies (#[trigger] bars[i]).volume <= most_volume(
            bars,
        ) by {
            if i < n {
                assert(init[i] == bars[i]);
            }
        }
        if bars[n].volume == most_volume(bars) {
        } else {
            let i = choose|i: int|
                0 <= i < init.len() && (#[trigger] init[i]).volume == most_volume(init);
            assert(bars[i] == init[i]);
        }
        if most_volume(bars) > 0 {
            let i = choose|i: int|
                0 <= i < bars.len() && (#[trigger] bars[i]).volume == most_volume(bars);
            assert(bars[i].volume > 0);
        }
    }
}

/// The greatest volume takes all the height and every other its share of it, to within half a row and
/// one row at least: of two volumes the greater is drawn no lower.
pub proof fn volumes_share_the_height(a: int, b: int, most: int, height: int)
    requires
        0 <= a <= b <= most,
        0 < most,
        1 <= height,
    ensures
        1 <= volume_height(a, most, height) <= volume_height(b, most, height) <= height,
        volume_height(most, most, height) == height,
        ({
            let rows = volume_height(b, most, height);
            rows > 1 ==> -most <= 2 * most * rows - 2 * (b * height) <= most
        }),
{
    lemma_share(a, most, height);
    lemma_share(b, most, height);
    lemma_share(most, most, height);
    assert(a * height <= b * height) by (nonlinear_arith)
        requires
            a <= b,
            1 <= height,
    ;
    vstd::arithmetic::div_mod::lemma_div_is_ordered(
        2 * (a * height) + most,
        2 * (b * height) + most,
        2 * most,
    );
    let top = (2 * (most * height) + most) / (2 * most);
    if top < height {
        assert(2 * most * top <= 2 * most * (height - 1)) by (nonlinear_arith)
            requires
                top <= height - 1,
                0 < most,
        ;
        assert(2 * most * (height - 1) == 2 * (most * height) - 2 * most) by (nonlinear_arith);
    }
}

/// The line of an average runs from the column and the row of one bar's average to those of the next,
/// and there is a piece of it exactly where both bars have one.
pub proof fn average_line_joins_its_points(
    plot: Plot,
    low: int,
    high: int,
    count: int,
    completed: Seq<Candle>,
    start: int,
    period: int,
    color: Color,
    index: int,
)
    requires
        is_period(period),
        0 <= start,
        1 <= index,
    ensures
        ({
            let step = average_step(plot, low, high, count, completed, start, period, color, index);
            let here = average_at(completed, period, start + index);
            let before = average_at(completed, period, start + index - 1);
            &&& period <= start + index ==> step.len() == 1 && step[0] == (ShapeView::Line {
                x0: bar_column(plot, count, index - 1),
                y0: price_row(before->0, low, high, plot),
                x1: bar_column(plot, count, index),
                y1: price_row(here->0, low, high, plot),
                color,
            })
            &&& period > start + index ==> step.len() == 0
        }),
{
}

/// The composite has a panel of one minute at the upper left, of three at the upper right, of five at
/// the lower left and of fifteen at the lower right, drawn one after the other on its ground.
pub proof fn composite_has_four_panels(one_minute: Seq<Candle>, as_of: i64)
    ensures
        ({
            let of = |minutes: u32, x: u32, y: u32, name: Seq<char>, accent: Color|
                panel_shapes(
                    Rect { x, y, width: 776, height: 476 },
                    completed_at(one_minute, minutes, as_of),
                    forming_at(one_minute, minutes, as_of),
                    progress_at(one_minute, minutes, as_of),
                    name,
                    accent,
                );
            let ground = Seq::new(1_000, |y: int| Seq::new(1_600, |x: int| 0x0c111bu32));
            composite(one_minute, as_of) == all_painted(
                all_painted(
                    all_painted(
                        all_painted(ground, of(1, 16, 16, "1 MIN"@, 0x4f91ff)),
                        of(3, 808, 16, "3 MIN"@, 0x8274ff),
                    ),
                    of(5, 16, 508, "5 MIN"@, 0x42c699),
                ),
                of(15, 808, 508, "15 MIN"@, 0xff9747),
            )
        }),
{
    reveal(with_panel);
    let ground = Seq::new(1_000, |y: int| Seq::new(1_600, |x: int| 0x0c111bu32));
    assert(Seq::new(1_000, |y: int| Seq::new(1_600, |x: int| BG)) =~~= ground);
}

/// Rounding gives a whole number no more than a half away, and the even one from half way.
pub proof fn rounding_is_to_the_nearest(numerator: int, denominator: int)
    requires
        0 <= numerator,
        0 < denominator,
    ensures
        ({
            let q = nearest_even(numerator, denominator);
            &&& -denominator <= 2 * (q * denominator - numerator) <= denominator
            &&& 2 * (q * denominator - numerator) == denominator || 2 * (q * denominator - numerator)
                == -denominator ==> q % 2 == 0
        }),
{
    let q = numerator / denominator;
    vstd::arithmetic::div_mod::lemma_fundamental_div_mod(numerator, denominator);
    vstd::arithmetic::div_mod::lemma_mod_bound(numerator, denominator);
    assert(q * denominator == denominator * q) by (nonlinear_arith);
    assert((q + 1) * denominator == denominator * q + denominator) by (nonlinear_arith);
}

/// The time of a bar is written in hours and minutes, two digits each.
pub proof fn time_is_written_in_hours_and_minutes(day: int, hour: int, minute: int, second: int)
    requires
        0 <= hour < 24,
        0 <= minute < 60,
        0 <= second < 60,
    ensures
        ({
            let text = time_text(day * 86_400 + hour * 3_600 + minute * 60 + second);
            &&& text.len() == 5
            &&& text[2] == ':'
            &&& text[0] == digit((hour / 10) as nat) && text[1] == digit((hour % 10) as nat)
            &&& text[3] == digit((minute / 10) as nat) && text[4] == digit((minute % 10) as nat)
        }),
{
    let at = day * 86_400 + hour * 3_600 + minute * 60 + second;
    let into = hour * 3_600 + minute * 60 + second;
    vstd::arithmetic::div_mod::lemma_fundamental_div_mod_converse(at, 86_400, day, into);
    vstd::arithmetic::div_mod::lemma_fundamental_div_mod_converse(
        into,
        3_600,
        hour,
        minute * 60 + second,
    );
    vstd::arithmetic::div_mod::lemma_fundamental_div_mod_converse(
        minute * 60 + second,
        60,
        minute,
        second,
    );
}

} // verus!
