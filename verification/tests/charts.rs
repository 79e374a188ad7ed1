use easy_scalping::candles::{
    aggregate_candles, indicator_payload, last_average_volume, last_moving_average,
};
use easy_scalping::chart_image::{
    composite_canvas, format_price, format_time, render_composite_png, settle_png, text_width,
    COMPOSITE_HEIGHT, COMPOSITE_WIDTH,
};
use easy_scalping::error::AppError;
use easy_scalping::types::{Candle, Ratio};

fn minute_bars(count: usize) -> Vec<Candle> {
    let base = 9 * 3_600_i64;
    (0..count)
        .map(|index| {
            let open = 100 + index as u64;
            Candle {
                time: base + index as i64 * 60,
                open,
                high: open + 2,
                low: open - 1,
                close: open + 1,
                volume: index as u64 + 1,
            }
        })
        .collect()
}

fn value(ratio: Ratio) -> f64 {
    ratio.numerator as f64 / ratio.denominator as f64
}

#[test]
fn minutes_are_grouped_by_1_3_5_and_15() {
    let source = minute_bars(30);
    let one = aggregate_candles(&source, 1);
    let three = aggregate_candles(&source, 3);
    let five = aggregate_candles(&source, 5);
    let fifteen = aggregate_candles(&source, 15);

    assert_eq!(one.len(), 30);
    assert_eq!(three.len(), 10);
    assert_eq!(five.len(), 6);
    assert_eq!(fifteen.len(), 2);
    assert_eq!(three[0].open, 100);
    assert_eq!(three[0].high, 104);
    assert_eq!(three[0].low, 99);
    assert_eq!(three[0].close, 103);
    assert_eq!(three[0].volume, (1..=3).sum::<u64>());
    assert_eq!(fifteen[1].open, 115);
    assert_eq!(fifteen[1].close, 130);
}

#[test]
fn bars_that_are_done_and_the_one_that_forms_are_told_apart() {
    let source = minute_bars(16);
    let as_of = 9 * 3_600 + 15 * 60 + 30;
    let payload = indicator_payload(&source, as_of);

    assert_eq!(payload.one_minute.completed_candles.len(), 15);
    assert_eq!(payload.one_minute.forming_candle.unwrap().time, 9 * 3_600 + 15 * 60);
    assert_eq!(value(payload.one_minute.forming_progress_pct.unwrap()), 50.0);
    assert_eq!(payload.three_minute.completed_candles.len(), 5);
    assert_eq!(payload.five_minute.completed_candles.len(), 3);
    assert_eq!(payload.fifteen_minute.completed_candles.len(), 1);
    let progress = value(payload.fifteen_minute.forming_progress_pct.unwrap());
    assert!((progress - 3.333_333).abs() < 0.001);
}

#[test]
fn thirty_bars_and_the_averages_of_those_that_are_done_are_told() {
    let mut source = minute_bars(1_802);
    source.last_mut().unwrap().close = 1_000_000;
    let as_of = 9 * 3_600 + 1_801 * 60 + 30;
    let payload = indicator_payload(&source, as_of);

    assert_eq!(payload.one_minute.completed_candles.len(), 30);
    assert_eq!(payload.one_minute.completed_candles[29].close, 1_901);
    assert_eq!(payload.one_minute.forming_candle.unwrap().close, 1_000_000);
    assert_eq!(
        payload.one_minute.moving_averages.ma5,
        last_moving_average(&source[..1_801], 5)
    );
    assert_eq!(
        payload.one_minute.average_volumes.volume20,
        last_average_volume(&source[..1_801], 20)
    );
    assert!(payload.fifteen_minute.moving_averages.ma120.is_some());
    assert_eq!(value(payload.one_minute.moving_averages.ma5.unwrap()), 1_899.0);
}

#[test]
fn the_day_and_its_weighted_average() {
    let source = vec![
        Candle { time: 9 * 3_600, open: 100, high: 110, low: 90, close: 105, volume: 10 },
        Candle { time: 9 * 3_600 + 60, open: 105, high: 120, low: 100, close: 115, volume: 30 },
    ];
    let payload = indicator_payload(&source, 9 * 3_600 + 90);

    assert_eq!(payload.day.open, Some(100));
    assert_eq!(payload.day.high, Some(120));
    assert_eq!(payload.day.low, Some(90));
    let average = payload.day.hlc3_volume_weighted_average.unwrap();
    let (above, below) = ((110 + 90 + 105) * 10 + (120 + 100 + 115) * 30, 3 * 40);
    assert_eq!(average.numerator * below, above * average.denominator);
}

#[test]
fn averages_need_enough_bars() {
    assert_eq!(last_moving_average(&minute_bars(4), 5), None);
    assert_eq!(last_average_volume(&minute_bars(4), 0), None);
    let empty = indicator_payload(&[], 9 * 3_600);
    assert_eq!(empty.day.open, None);
    assert!(empty.one_minute.forming_candle.is_none());
}

#[test]
fn the_composite_is_the_same_png_each_time() {
    let source = minute_bars(1_800);
    let as_of = source.last().unwrap().time + 30;
    let first = render_composite_png(&source, as_of).unwrap();
    let second = render_composite_png(&source, as_of).unwrap();

    assert_eq!(&first[..8], b"\x89PNG\r\n\x1a\n");
    assert_eq!(first, second);
    let decoded = image::load_from_memory(&first).unwrap();
    assert_eq!(decoded.width(), COMPOSITE_WIDTH);
    assert_eq!(decoded.height(), COMPOSITE_HEIGHT);
    let rgb = decoded.to_rgb8();
    let margin = 16;
    let gap = 16;
    let panel_width = (COMPOSITE_WIDTH - margin * 2 - gap) / 2;
    let panel_height = (COMPOSITE_HEIGHT - margin * 2 - gap) / 2;
    assert_eq!(*rgb.get_pixel(margin + 1, margin + 1), image::Rgb([79, 145, 255]));
    assert_eq!(
        *rgb.get_pixel(margin + panel_width + gap + 1, margin + 1),
        image::Rgb([130, 116, 255])
    );
    assert_eq!(
        *rgb.get_pixel(margin + 1, margin + panel_height + gap + 1),
        image::Rgb([66, 198, 153])
    );
    assert_eq!(
        *rgb.get_pixel(margin + panel_width + gap + 1, margin + panel_height + gap + 1),
        image::Rgb([255, 151, 71])
    );
}

#[test]
fn the_png_holds_the_canvas() {
    let source = minute_bars(200);
    let as_of = source.last().unwrap().time + 30;
    let canvas = composite_canvas(&source, as_of);
    let png = render_composite_png(&source, as_of).unwrap();
    let rgb = image::load_from_memory(&png).unwrap().to_rgb8();
    for (x, y) in [(0, 0), (16, 16), (400, 300), (1_000, 700), (1_599, 999)] {
        let [r, g, b] = rgb.get_pixel(x, y).0;
        let expected = (r as u32) << 16 | (g as u32) << 8 | b as u32;
        assert_eq!(canvas.pixel(x, y), expected, "{x},{y}");
    }
    let failed = settle_png(Err("x".into()));
    assert!(matches!(failed, Err(AppError::Parse(text)) if text.contains('x')));
}

#[test]
fn labels_of_a_chart() {
    assert_eq!(format_time(9 * 3_600 + 5 * 60), "09:05");
    assert_eq!(text_width("", 1), 0);
    assert_eq!(format_price(185_000, 1), "185000");
}

#[test]
fn aggregation_loses_no_volume() {
    let source = minute_bars(47);
    let total: u64 = source.iter().map(|bar| bar.volume).sum();
    for interval in [1, 3, 5, 15, 60] {
        let bars = aggregate_candles(&source, interval);
        assert_eq!(bars.iter().map(|bar| bar.volume).sum::<u64>(), total);
    }
    assert!(aggregate_candles(&source, 0).is_empty());
}

#[test]
fn aggregation_takes_bars_in_any_order() {
    let source = minute_bars(30);
    let mut turned = source.clone();
    turned.reverse();
    turned.swap(3, 20);
    for size in [1, 3, 5, 15] {
        let bars = aggregate_candles(&turned, size);
        assert_eq!(bars, aggregate_candles(&source, size));
        for (place, bar) in bars.iter().enumerate() {
            let step = size as usize;
            let bucket = &source[place * step..(place + 1) * step];
            assert_eq!(bar.time, bucket[0].time);
            assert_eq!(bar.open, bucket[0].open);
            assert_eq!(bar.close, bucket[step - 1].close);
            assert_eq!(bar.high, bucket.iter().map(|c| c.high).max().unwrap());
            assert_eq!(bar.low, bucket.iter().map(|c| c.low).min().unwrap());
            assert_eq!(bar.volume, bucket.iter().map(|c| c.volume).sum::<u64>());
        }
    }
}

#[test]
fn bars_at_the_ends_of_the_count_are_grouped() {
    // The first time whose minute can be counted.
    let first = i64::MIN + (60 - i64::MIN.rem_euclid(60));
    let bar = Candle { time: first + 59, open: 1, high: 3, low: 1, close: 2, volume: 4 };
    let bars = aggregate_candles(&[bar], 1);
    assert_eq!(bars[0].time, first);
    let late = Candle { time: i64::MAX, ..bar };
    assert_eq!(aggregate_candles(&[late], 15)[0].time, i64::MAX - i64::MAX % 900);
    assert!(aggregate_candles(&[Candle { time: i64::MIN, ..bar }], 0).is_empty());
}
