use sora::date::Date;
use sora::range::{invert_ranges_in_boundary, DateRange};

fn date(y: i32, m: u32, d: u32) -> Date {
    Date::from_ymd(y, m, d).unwrap()
}

fn create_date_range(start: (i32, u32, u32), end: (i32, u32, u32)) -> DateRange {
    DateRange::new(date(start.0, start.1, start.2), date(end.0, end.1, end.2))
}

fn check_no_overlap(
    start1: (i32, u32, u32),
    end1: (i32, u32, u32),
    start2: (i32, u32, u32),
    end2: (i32, u32, u32),
    expected: bool,
) {
    let range1 = create_date_range(start1, end1);
    let range2 = create_date_range(start2, end2);
    assert_eq!(!range1.overlap(&range2), expected);
}

#[test]
fn test_no_overlap() {
    check_no_overlap((2024, 1, 1), (2024, 1, 10), (2024, 1, 11), (2024, 1, 20), true);
    check_no_overlap((2024, 1, 5), (2024, 1, 15), (2024, 1, 10), (2024, 1, 20), false);
    check_no_overlap((2024, 1, 5), (2024, 1, 15), (2024, 1, 5), (2024, 1, 15), false);
    check_no_overlap((2024, 1, 5), (2024, 1, 15), (2024, 1, 7), (2024, 1, 10), false);
    check_no_overlap((2024, 1, 1), (2024, 1, 10), (2024, 1, 10), (2024, 1, 20), false);
}

#[test]
fn overlap_is_symmetric() {
    let cases = [
        ((2024, 1, 1), (2024, 1, 10), (2024, 1, 11), (2024, 1, 20)),
        ((2024, 1, 5), (2024, 1, 15), (2024, 1, 10), (2024, 1, 20)),
        ((2024, 1, 1), (2024, 1, 10), (2024, 1, 10), (2024, 1, 20)),
        ((2024, 3, 1), (2024, 3, 2), (2024, 2, 1), (2024, 6, 1)),
    ];
    for (s1, e1, s2, e2) in cases {
        let a = create_date_range(s1, e1);
        let b = create_date_range(s2, e2);
        assert_eq!(a.overlap(&b), b.overlap(&a));
    }
}

fn check_is_contained_in(
    start1: (i32, u32, u32),
    end1: (i32, u32, u32),
    start2: (i32, u32, u32),
    end2: (i32, u32, u32),
    expected: bool,
) {
    let range1 = create_date_range(start1, end1);
    let range2 = create_date_range(start2, end2);
    assert_eq!(range1.is_contained_in(&range2), expected);
}

#[test]
fn test_is_contained_in() {
    check_is_contained_in((2024, 1, 3), (2024, 1, 7), (2024, 1, 1), (2024, 1, 10), true);
    check_is_contained_in((2024, 1, 1), (2024, 1, 10), (2024, 1, 3), (2024, 1, 7), false);
    check_is_contained_in((2024, 1, 1), (2024, 1, 5), (2024, 1, 3), (2024, 1, 10), false);
    check_is_contained_in((2024, 1, 3), (2024, 1, 10), (2024, 1, 1), (2024, 1, 5), false);
}

#[test]
fn containment_implies_overlap() {
    let a = create_date_range((2024, 1, 3), (2024, 1, 7));
    let b = create_date_range((2024, 1, 1), (2024, 1, 10));
    assert!(a.is_contained_in(&b));
    assert!(a.overlap(&b));
}

#[test]
fn test_invert_ranges_in_boundary() {
    // single gap before and after a range
    let ranges = vec![DateRange::new(date(2023, 1, 10), date(2023, 1, 15))];
    let result = invert_ranges_in_boundary(&ranges, date(2023, 1, 5), date(2023, 1, 20));
    assert_eq!(
        result,
        vec![
            DateRange::new(date(2023, 1, 5), date(2023, 1, 10)),
            DateRange::new(date(2023, 1, 15), date(2023, 1, 20)),
        ]
    );

    // multiple gaps between non-overlapping ranges
    let ranges = vec![
        DateRange::new(date(2023, 1, 10), date(2023, 1, 15)),
        DateRange::new(date(2023, 1, 20), date(2023, 1, 25)),
    ];
    let result = invert_ranges_in_boundary(&ranges, date(2023, 1, 5), date(2023, 1, 30));
    assert_eq!(
        result,
        vec![
            DateRange::new(date(2023, 1, 5), date(2023, 1, 10)),
            DateRange::new(date(2023, 1, 15), date(2023, 1, 20)),
            DateRange::new(date(2023, 1, 25), date(2023, 1, 30)),
        ]
    );

    // no gaps when the range covers the entire period
    let ranges = vec![DateRange::new(date(2023, 1, 5), date(2023, 1, 30))];
    let result = invert_ranges_in_boundary(&ranges, date(2023, 1, 5), date(2023, 1, 30));
    assert_eq!(result, vec![]);

    // empty input results in one large range
    let ranges = vec![];
    let result = invert_ranges_in_boundary(&ranges, date(2023, 1, 5), date(2023, 1, 30));
    assert_eq!(result, vec![DateRange::new(date(2023, 1, 5), date(2023, 1, 30))]);

    // multiple gaps with complex intervals
    let ranges = vec![
        DateRange::new(date(2023, 1, 10), date(2023, 1, 15)),
        DateRange::new(date(2023, 1, 18), date(2023, 1, 20)),
    ];
    let result = invert_ranges_in_boundary(&ranges, date(2023, 1, 5), date(2023, 1, 25));
    assert_eq!(
        result,
        vec![
            DateRange::new(date(2023, 1, 5), date(2023, 1, 10)),
            DateRange::new(date(2023, 1, 15), date(2023, 1, 18)),
            DateRange::new(date(2023, 1, 20), date(2023, 1, 25)),
        ]
    );
}

#[test]
fn invert_results_are_sorted_disjoint_and_within_bounds() {
    let ranges = vec![
        DateRange::new(date(2023, 3, 1), date(2023, 4, 1)),
        DateRange::new(date(2023, 1, 20), date(2023, 2, 10)),
        DateRange::new(date(2023, 2, 1), date(2023, 2, 20)),
    ];
    let start = date(2023, 1, 5);
    let end = date(2023, 5, 1);
    let result = invert_ranges_in_boundary(&ranges, start, end);
    for gap in &result {
        assert!(start.days <= gap.start.days);
        assert!(gap.start.days < gap.end.days);
        assert!(gap.end.days <= end.days);
    }
    for pair in result.windows(2) {
        assert!(pair[0].end.days < pair[1].start.days);
        assert!(!pair[0].overlap(&pair[1]));
    }
}

#[test]
fn invert_round_trip_covers_the_boundary() {
    let ranges = vec![
        DateRange::new(date(2023, 1, 10), date(2023, 1, 15)),
        DateRange::new(date(2023, 1, 18), date(2023, 1, 20)),
    ];
    let start = date(2023, 1, 5);
    let end = date(2023, 1, 25);
    let gaps = invert_ranges_in_boundary(&ranges, start, end);
    let mut both = gaps.clone();
    both.extend(ranges);
    let leftover = invert_ranges_in_boundary(&both, start, end);
    assert_eq!(leftover, vec![]);
}

#[test]
fn date_from_ymd_counts_days() {
    let a = date(2023, 1, 5);
    let b = date(2023, 1, 10);
    assert_eq!(b.days - a.days, 5);
    // across a month boundary
    let c = date(2023, 2, 3);
    assert_eq!(c.days - b.days, 24);
    // leap year: 2024-02 has 29 days
    assert_eq!(date(2024, 3, 1).days - date(2024, 2, 1).days, 29);
    assert!(a.days < b.days);
    // invalid calendar triples are rejected
    assert!(Date::from_ymd(2023, 2, 30).is_none());
    assert!(Date::from_ymd(2023, 13, 1).is_none());
}
