use stock_tracker::quotes::{closes, sort_by_time, Quote};

fn q(timestamp: u64, close: i64) -> Quote {
    Quote { timestamp, close }
}

#[test]
fn sort_by_time_orders_by_timestamp() {
    let mut quotes = vec![q(30, 3), q(10, 1), q(40, 4), q(20, 2)];
    sort_by_time(&mut quotes);
    assert_eq!(quotes, vec![q(10, 1), q(20, 2), q(30, 3), q(40, 4)]);
}

#[test]
fn sort_by_time_keeps_arrival_order_of_equal_timestamps() {
    let mut quotes = vec![q(2, 10), q(1, 20), q(2, 30), q(1, 40), q(2, 50), q(0, 60)];
    sort_by_time(&mut quotes);
    assert_eq!(
        quotes,
        vec![q(0, 60), q(1, 20), q(1, 40), q(2, 10), q(2, 30), q(2, 50)]
    );
}

#[test]
fn sort_by_time_leaves_ordered_and_trivial_series_alone() {
    let mut none: Vec<Quote> = vec![];
    sort_by_time(&mut none);
    assert!(none.is_empty());

    let mut one = vec![q(7, 1)];
    sort_by_time(&mut one);
    assert_eq!(one, vec![q(7, 1)]);

    let mut ordered = vec![q(1, 5), q(1, 4), q(2, 3), q(u64::MAX, 2)];
    let before = ordered.clone();
    sort_by_time(&mut ordered);
    assert_eq!(ordered, before);
}

#[test]
fn sort_by_time_agrees_with_a_stable_sort() {
    let mut seed: u64 = 12345;
    for len in 0..40usize {
        let mut quotes = Vec::new();
        for i in 0..len {
            seed = seed.wrapping_mul(6364136223846793005).wrapping_add(1442695040888963407);
            quotes.push(q((seed >> 60) % 5, i as i64));
        }
        let mut expected = quotes.clone();
        expected.sort_by_key(|quote| quote.timestamp);
        sort_by_time(&mut quotes);
        assert_eq!(quotes, expected);
    }
}

#[test]
fn sort_by_time_reverses_a_descending_series() {
    let mut quotes: Vec<Quote> = (0..100u64).rev().map(|t| q(t, t as i64)).collect();
    sort_by_time(&mut quotes);
    let expected: Vec<Quote> = (0..100u64).map(|t| q(t, t as i64)).collect();
    assert_eq!(quotes, expected);
}

#[test]
fn closes_lists_the_prices_quote_by_quote() {
    assert_eq!(closes(&[]), Vec::<i64>::new());
    assert_eq!(closes(&[q(3, 30), q(1, -10), q(2, 20)]), vec![30, -10, 20]);
}
