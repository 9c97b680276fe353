#![allow(non_snake_case)]

use stock_tracker::signal::{MaxPrice, MinPrice, PriceDifference, Ratio, WindowedSMA};

fn value(r: Ratio) -> f64 {
    r.num as f64 / r.den as f64
}

#[test]
fn test_PriceDifference_calculate() {
    let signal = PriceDifference {};
    assert_eq!(signal.calculate(&[]), None);
    assert_eq!(signal.calculate(&[1]), Some((0, Ratio { num: 0, den: 1 })));
    assert_eq!(signal.calculate(&[1, 0]), Some((-1, Ratio { num: -1, den: 1 })));
    assert_eq!(
        signal.calculate(&[2, 3, 5, 6, 1, 2, 10]),
        Some((8, Ratio { num: 8, den: 2 }))
    );
    assert_eq!(
        signal.calculate(&[0, 3, 5, 6, 1, 2, 1]),
        Some((1, Ratio { num: 1, den: 1 }))
    );
}

#[test]
fn price_difference_as_numbers() {
    let signal = PriceDifference {};
    let (abs_diff, rel_diff) = signal.calculate(&[2, 3, 5, 6, 1, 2, 10]).unwrap();
    assert_eq!((abs_diff as f64, value(rel_diff)), (8.0, 4.0));
    let (abs_diff, rel_diff) = signal.calculate(&[1, 0]).unwrap();
    assert_eq!((abs_diff as f64, value(rel_diff)), (-1.0, -1.0));
}

#[test]
fn test_MinPrice_calculate() {
    let signal = MinPrice {};
    assert_eq!(signal.calculate(&[]), None);
    assert_eq!(signal.calculate(&[1]), Some(1));
    assert_eq!(signal.calculate(&[1, 0]), Some(0));
    assert_eq!(signal.calculate(&[2, 3, 5, 6, 1, 2, 10]), Some(1));
    assert_eq!(signal.calculate(&[0, 3, 5, 6, 1, 2, 1]), Some(0));
}

#[test]
fn test_MaxPrice_calculate() {
    let signal = MaxPrice {};
    assert_eq!(signal.calculate(&[]), None);
    assert_eq!(signal.calculate(&[1]), Some(1));
    assert_eq!(signal.calculate(&[1, 0]), Some(1));
    assert_eq!(signal.calculate(&[2, 3, 5, 6, 1, 2, 10]), Some(10));
    assert_eq!(signal.calculate(&[0, 3, 5, 6, 1, 2, 1]), Some(6));
}

#[test]
fn test_WindowedSMA_calculate() {
    // 2.0, 4.5, 5.3, 6.5, 4.7 in tenths
    let series = vec![20, 45, 53, 65, 47];

    let signal = WindowedSMA { window_size: 3 };
    assert_eq!(
        signal.calculate(&series),
        Some(vec![
            Ratio { num: 118, den: 3 },
            Ratio { num: 163, den: 3 },
            Ratio { num: 165, den: 3 },
        ])
    );

    let signal = WindowedSMA { window_size: 5 };
    assert_eq!(signal.calculate(&series), Some(vec![Ratio { num: 230, den: 5 }]));

    let signal = WindowedSMA { window_size: 10 };
    assert_eq!(signal.calculate(&series), Some(vec![]));
}

#[test]
fn windowed_sma_as_numbers() {
    let series = vec![20, 45, 53, 65, 47];
    let averages: Vec<f64> = WindowedSMA { window_size: 3 }
        .calculate(&series)
        .unwrap()
        .into_iter()
        .map(|r| value(r) / 10.0)
        .collect();
    let expected = [3.9333333333333336, 5.433333333333334, 5.5];
    assert_eq!(averages.len(), expected.len());
    for (got, want) in averages.iter().zip(expected.iter()) {
        assert!((got - want).abs() < 1e-12);
    }
    let whole = WindowedSMA { window_size: 5 }.calculate(&series).unwrap();
    assert_eq!(whole.len(), 1);
    assert_eq!(value(whole[0]) / 10.0, 4.6);
}

#[test]
fn windowed_sma_has_no_result_for_small_windows_or_no_data() {
    let series = vec![1, 2, 3];
    assert_eq!(WindowedSMA { window_size: 0 }.calculate(&series), None);
    assert_eq!(WindowedSMA { window_size: 1 }.calculate(&series), None);
    assert_eq!(WindowedSMA { window_size: 2 }.calculate(&[]), None);
    assert_eq!(WindowedSMA { window_size: 10 }.calculate(&[]), None);
}

#[test]
fn windowed_sma_gives_one_average_per_window() {
    let series: Vec<i64> = (1..=12).collect();
    for w in 2..=series.len() {
        let averages = WindowedSMA { window_size: w }.calculate(&series).unwrap();
        assert_eq!(averages.len(), series.len() - w + 1);
        for (i, r) in averages.iter().enumerate() {
            let sum: i64 = series[i..i + w].iter().sum();
            assert_eq!(*r, Ratio { num: sum as i128, den: w as i128 });
        }
    }
    assert_eq!(
        WindowedSMA { window_size: series.len() + 1 }.calculate(&series),
        Some(vec![])
    );
}

#[test]
fn windowed_sma_does_not_overflow_on_extreme_prices() {
    let series = vec![i64::MAX, i64::MAX, i64::MIN, i64::MIN];
    let averages = WindowedSMA { window_size: 2 }.calculate(&series).unwrap();
    assert_eq!(
        averages,
        vec![
            Ratio { num: 2 * (i64::MAX as i128), den: 2 },
            Ratio { num: -1, den: 2 },
            Ratio { num: 2 * (i64::MIN as i128), den: 2 },
        ]
    );
}

#[test]
fn price_difference_does_not_overflow_on_extreme_prices() {
    let signal = PriceDifference {};
    let span = i64::MAX as i128 - i64::MIN as i128;
    assert_eq!(
        signal.calculate(&[i64::MIN, 0, i64::MAX]),
        Some((span, Ratio { num: span, den: i64::MIN as i128 }))
    );
    assert_eq!(
        signal.calculate(&[i64::MAX, i64::MIN]),
        Some((-span, Ratio { num: -span, den: i64::MAX as i128 }))
    );
}

#[test]
fn price_difference_divides_by_one_where_the_series_starts_at_zero() {
    let signal = PriceDifference {};
    assert_eq!(signal.calculate(&[0, 7]), Some((7, Ratio { num: 7, den: 1 })));
    assert_eq!(signal.calculate(&[0, -7]), Some((-7, Ratio { num: -7, den: 1 })));
    assert_eq!(signal.calculate(&[-2, 4]), Some((6, Ratio { num: 6, den: -2 })));
}

#[test]
fn max_and_min_are_elements_that_bound_the_series() {
    let series = vec![5, -3, 9, 9, 0, -3, 7];
    let max = MaxPrice {}.calculate(&series).unwrap();
    let min = MinPrice {}.calculate(&series).unwrap();
    assert_eq!((min, max), (-3, 9));
    assert!(series.contains(&max) && series.contains(&min));
    assert!(series.iter().all(|p| min <= *p && *p <= max));
    assert_eq!(MaxPrice {}.calculate(&[i64::MIN]), Some(i64::MIN));
    assert_eq!(MinPrice {}.calculate(&[i64::MAX]), Some(i64::MAX));
}

#[test]
fn ratio_zero_is_zero_over_one() {
    assert_eq!(Ratio::zero(), Ratio { num: 0, den: 1 });
}
