use raytracer::math::Scalar;
use raytracer::scheduler::Collator;
use raytracer::vec::ColorRGB;

fn row(level: i64) -> Vec<ColorRGB> {
    let c = Scalar::from_raw(level);
    vec![ColorRGB::new(c, c, c)]
}

fn levels(rows: &Vec<Vec<ColorRGB>>) -> Vec<i64> {
    rows.iter().map(|r| r[0].0.raw).collect()
}

#[test]
fn rows_are_handed_out_from_the_top_down() {
    let mut collator = Collator::new(5);
    assert!(!collator.is_done());
    assert!(collator.accept(2, row(2)).is_empty());
    assert!(collator.accept(1, row(1)).is_empty());
    assert_eq!(levels(&collator.accept(0, row(0))), vec![0, 1, 2]);
    assert!(collator.accept(4, row(4)).is_empty());
    assert!(!collator.is_done());
    assert_eq!(levels(&collator.accept(3, row(3))), vec![3, 4]);
    assert!(collator.is_done());
}

#[test]
fn rows_in_order_pass_straight_through() {
    let mut collator = Collator::new(3);
    for y in 0..3 {
        assert_eq!(levels(&collator.accept(y, row(y as i64))), vec![y as i64]);
    }
    assert!(collator.is_done());
}

#[test]
fn rows_that_are_not_awaited_are_dropped() {
    let mut collator = Collator::new(2);
    assert!(collator.accept(2, row(9)).is_empty());
    assert!(collator.accept(1, row(1)).is_empty());
    // A row that has come in is not replaced.
    assert!(collator.accept(1, row(7)).is_empty());
    assert_eq!(levels(&collator.accept(0, row(0))), vec![0, 1]);
    // A row that has been written is not written again.
    assert!(collator.accept(0, row(5)).is_empty());
    assert!(collator.is_done());
    assert!(Collator::new(0).is_done());
}
