use curriculum::CVDuration;

fn d(year: u32, month: u32) -> CVDuration {
    CVDuration { year, month }
}

#[test]
fn round_examples() {
    assert_eq!(d(3, 3).round(), d(3, 0));
    assert_eq!(d(3, 5).round(), d(3, 0));
    assert_eq!(d(3, 6).round(), d(4, 0));
    assert_eq!(d(3, 7).round(), d(4, 0));
    assert_eq!(d(3, 9).round(), d(4, 0));
    assert_eq!(d(0, 10).round(), d(0, 10));
    assert_eq!(d(0, 11).round(), d(1, 0));
}

#[test]
fn round_twelve_months() {
    assert_eq!(d(0, 12).round(), d(1, 0));
    assert_eq!(d(0, 0).round(), d(0, 0));
}

#[test]
fn add_examples() {
    let d1 = d(1, 9);
    let d2 = d(0, 8);
    let d3 = d(2, 0);
    assert_eq!(d1.add(d2), d(2, 5));
    assert_eq!(d1.add(d3), d(3, 9));
    assert_eq!(d2.add(d3), d(2, 8));
}

#[test]
fn add_carries_many_months() {
    assert_eq!(d(0, 30).add(d(1, 30)), d(6, 0));
}

#[test]
fn add_commutative_values() {
    let a = d(1, 9);
    let b = d(2, 7);
    assert_eq!(a.add(b), b.add(a));
}

#[test]
fn add_associative_values() {
    let a = d(1, 9);
    let b = d(0, 8);
    let c = d(3, 11);
    assert_eq!(a.add(b).add(c), a.add(b.add(c)));
}

#[test]
fn from_days_examples() {
    assert_eq!(CVDuration::from_days(0), d(0, 0));
    assert_eq!(CVDuration::from_days(61), d(0, 2));
    assert_eq!(CVDuration::from_days(396), d(1, 1));
    assert_eq!(CVDuration::from_days(303), d(0, 10));
    assert_eq!(CVDuration::from_days(355), d(0, 12));
    assert_eq!(CVDuration::from_days(14), d(0, 0));
    assert_eq!(CVDuration::from_days(15), d(0, 1));
}
