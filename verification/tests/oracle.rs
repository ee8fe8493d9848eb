use tangle_pallets::oracle::{DefaultCombineData, TimestampedValue};

fn tv(value: u128, timestamp: u64) -> TimestampedValue {
    TimestampedValue { value, timestamp }
}

fn combiner(minimum_count: u32) -> DefaultCombineData {
    DefaultCombineData { minimum_count, expires_in: 10 }
}

#[test]
fn median_of_an_odd_number() {
    let vs = vec![tv(5, 100), tv(1, 100), tv(9, 100)];
    assert_eq!(combiner(3).combine_data(vs, None, 105), Some(tv(5, 100)));
}

#[test]
fn upper_median_of_an_even_number() {
    let vs = vec![tv(40, 100), tv(10, 101), tv(30, 102), tv(20, 103)];
    assert_eq!(combiner(1).combine_data(vs, None, 105), Some(tv(30, 102)));
}

#[test]
fn expired_values_are_dropped() {
    let prev = Some(tv(7, 1));
    // Reported at 90 with ten moments of validity: expired at 100.
    let vs = vec![tv(1, 90), tv(2, 90), tv(50, 95)];
    assert_eq!(combiner(1).combine_data(vs, prev, 100), Some(tv(50, 95)));
}

#[test]
fn too_few_values_keep_the_previous_one() {
    let prev = Some(tv(7, 1));
    let vs = vec![tv(1, 100), tv(2, 100)];
    assert_eq!(combiner(3).combine_data(vs.clone(), prev, 100), prev);
    assert_eq!(combiner(0).combine_data(vec![], prev, 100), prev);
    assert_eq!(combiner(0).combine_data(vec![tv(1, 80)], None, 100), None);
    assert_eq!(combiner(2).combine_data(vs, prev, 100), Some(tv(2, 100)));
}

#[test]
fn equal_values_give_one_of_them() {
    let vs = vec![tv(5, 100), tv(5, 101), tv(5, 102)];
    let r = combiner(1).combine_data(vs, None, 100).unwrap();
    assert_eq!(r.value, 5);
    assert!((100..=102).contains(&r.timestamp));
}

#[test]
fn validity_saturates_at_the_last_moment() {
    let c = DefaultCombineData { minimum_count: 1, expires_in: u64::MAX };
    assert_eq!(c.combine_data(vec![tv(3, 5)], None, u64::MAX - 1), Some(tv(3, 5)));
    assert_eq!(c.combine_data(vec![tv(3, 5)], None, u64::MAX), None);
}
