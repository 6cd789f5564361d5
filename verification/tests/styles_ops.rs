use dome::geometry::Size;
use dome::styles::{max_options, min_options, sum_options, SizeConstraints};

#[test]
fn option_bounds_treat_none_as_identity() {
    assert_eq!(min_options(None, None), None);
    assert_eq!(min_options(Some(3), None), Some(3));
    assert_eq!(min_options(None, Some(7)), Some(7));
    assert_eq!(min_options(Some(3), Some(7)), Some(3));
    assert_eq!(max_options(Some(3), Some(7)), Some(7));
    assert_eq!(max_options(None, Some(7)), Some(7));
    assert_eq!(sum_options(Some(3), Some(7)), Some(10));
    assert_eq!(sum_options(None, Some(7)), Some(7));
    assert_eq!(sum_options(Some(3), None), Some(3));
    assert_eq!(sum_options(None, None), None);
}

#[test]
fn constraints_combine_componentwise() {
    let a = SizeConstraints { width: Some(10), height: None };
    let b = SizeConstraints { width: Some(4), height: Some(9) };
    let lo = a.min(b);
    assert_eq!(lo.width, Some(4));
    assert_eq!(lo.height, Some(9));
    let hi = a.max(b);
    assert_eq!(hi.width, Some(10));
    assert_eq!(hi.height, Some(9));
}

#[test]
fn apply_bounds_clamp_a_size() {
    let c = SizeConstraints { width: Some(50), height: None };
    let clamped = c.apply_max(Size { width: 80, height: 80 });
    assert_eq!(clamped, Size { width: 50, height: 80 });
    let raised = c.apply_min(Size { width: 10, height: 10 });
    assert_eq!(raised, Size { width: 50, height: 10 });
}

#[test]
fn constraints_from_size_fix_both_axes() {
    let c = SizeConstraints::from(Size { width: 12, height: 34 });
    assert_eq!(c.width, Some(12));
    assert_eq!(c.height, Some(34));
}
