use fabled::genome::{field_bounds, Genome};

#[test]
fn baseline_policy() {
    let g = Genome::baseline();
    assert_eq!((g.price_bread, g.price_ale, g.poll_tax, g.salary_guard), (8, 8, 5, 35));
    assert_eq!(
        g.brief(),
        "bread 8 fish 6 ale 8 supper 15 | tax 5 wealth>50÷10 | wage 5 guard 35 mayor 40 pension 24"
    );
}

#[test]
fn knobs_clamp_and_wholesale_caps() {
    let g = Genome::baseline();
    assert_eq!(field_bounds(8), (20, 400));
    let h = g.with_knob(1, 1000).capped();
    assert_eq!(h.price_bread, 24);
    let cheap = g.with_knob(1, 0);
    assert_eq!(cheap.price_bread, 2);
    assert_eq!(cheap.wholesale_bread, 5);
    let capped = cheap.capped();
    assert_eq!(capped.wholesale_bread, 2);
    assert_eq!(capped.field(7), 5);
}
