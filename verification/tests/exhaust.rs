use eye::compiler::exhaust::{
    merge_ranges, Exhaustion, MatchedContent, MatchedType, MatchedVariant, Range, SignedInt,
};
use eye::compiler::types::{IntType, InvalidTypeError};

#[test]
fn ranges() {
    let mut e = Exhaustion::Empty;
    e.exhaust_int(SignedInt(6, false));
    e.exhaust_int(SignedInt(1, false));
    e.exhaust_int(SignedInt(3, false));
    e.exhaust_int(SignedInt(2, false));
    e.exhaust_int(SignedInt(5, true));
    e.exhaust_int(SignedInt(8, true));
    e.exhaust_int_range(SignedInt(7, true), SignedInt(6, true));
    assert_eq!(
        e,
        Exhaustion::SignedInt {
            neg: vec![Range::new(5, 8)],
            pos: vec![Range::new(1, 3), Range::new(6, 6)]
        }
    );

    let mut e = Exhaustion::Empty;
    e.exhaust_int_range(SignedInt(3, true), SignedInt(5, false));
    assert_eq!(
        e,
        Exhaustion::SignedInt {
            neg: vec![Range::new(0, 3)],
            pos: vec![Range::new(0, 5)]
        }
    );
    e.exhaust_int_range(SignedInt(5, true), SignedInt(4, true));
    assert_eq!(
        e,
        Exhaustion::SignedInt {
            neg: vec![Range::new(0, 5)],
            pos: vec![Range::new(0, 5)]
        }
    );
}

#[test]
fn values_are_new_once() {
    let mut e = Exhaustion::Empty;
    assert!(e.exhaust_int(SignedInt(3, false)));
    assert!(!e.exhaust_int(SignedInt(3, false)));
    assert!(e.exhaust_int_range(SignedInt(2, false), SignedInt(4, false)));
    assert!(!e.exhaust_int_range(SignedInt(2, false), SignedInt(4, false)));
}

fn matched(content: MatchedContent) -> MatchedType {
    MatchedType { uninhabited: Ok(false), content }
}

#[test]
fn all_bytes_are_exhausted() {
    let bytes = matched(MatchedContent::Int(IntType::U8));
    let mut e = Exhaustion::Empty;
    e.exhaust_int_range(SignedInt(0, false), SignedInt(254, false));
    assert_eq!(e.is_exhausted(&bytes), Ok(false));
    e.exhaust_int(SignedInt(255, false));
    assert_eq!(e.is_exhausted(&bytes), Ok(true));
    let signed = matched(MatchedContent::Int(IntType::I8));
    let mut e = Exhaustion::Empty;
    e.exhaust_int_range(SignedInt(128, true), SignedInt(127, false));
    assert_eq!(e.is_exhausted(&signed), Ok(true));
}

#[test]
fn variants_are_exhausted() {
    let ty = matched(MatchedContent::Enum(vec![
        MatchedVariant { name: "Some".to_owned(), args: vec![matched(MatchedContent::Other)] },
        MatchedVariant { name: "None".to_owned(), args: vec![] },
    ]));
    let mut e = Exhaustion::Empty;
    e.enum_variant("None", 0).unwrap();
    assert_eq!(e.is_exhausted(&ty), Ok(false));
    let args = e.enum_variant("Some", 1).unwrap();
    args[0].exhaust_full();
    assert_eq!(e.is_exhausted(&ty), Ok(true));
}

#[test]
fn both_truth_values_are_needed() {
    let mut e = Exhaustion::Empty;
    e.exhaust_bool(true);
    assert_eq!(e, Exhaustion::Bool { true_: true, false_: false });
    e.exhaust_bool(false);
    assert_eq!(e, Exhaustion::Bool { true_: true, false_: true });
    assert!(!Exhaustion::Empty.is_trivially_exhausted());
    assert!(Exhaustion::Full.is_trivially_exhausted());
}

#[test]
fn types_without_values_need_no_pattern() {
    let ty = MatchedType { uninhabited: Ok(true), content: MatchedContent::Other };
    assert_eq!(Exhaustion::Empty.is_exhausted(&ty), Ok(true));
    let ty = MatchedType { uninhabited: Err(InvalidTypeError), content: MatchedContent::Other };
    assert_eq!(Exhaustion::Empty.is_exhausted(&ty), Err(InvalidTypeError));
}

#[test]
fn ranges_merge_in_either_order() {
    let pairs: [((u128, u128), (u128, u128)); 3] =
        [((1, 3), (4, 6)), ((1, 5), (2, 9)), ((1, 3), (5, 6))];
    let merged = [vec![Range::new(1, 6)], vec![Range::new(1, 9)]];
    for (i, (a, b)) in pairs.into_iter().enumerate() {
        let mut e = Exhaustion::Empty;
        let mut f = Exhaustion::Empty;
        for (x, y) in [(&mut e, [a, b]), (&mut f, [b, a])] {
            for (start, end) in y {
                x.exhaust_int_range(SignedInt(start, false), SignedInt(end, false));
            }
        }
        assert_eq!(e, f);
        match merged.get(i) {
            Some(ranges) => assert_eq!(e, Exhaustion::UnsignedInt(ranges.clone())),
            None => assert_eq!(
                e,
                Exhaustion::UnsignedInt(vec![Range::new(1, 3), Range::new(5, 6)]),
            ),
        }
    }
}

#[test]
fn signs_are_told_apart_from_the_first_negative_value_on() {
    let mut e = Exhaustion::Empty;
    e.exhaust_int(SignedInt(3, false));
    e.exhaust_int(SignedInt(3, false));
    assert_eq!(e, Exhaustion::UnsignedInt(vec![Range::new(3, 3)]));
    e.exhaust_int(SignedInt(2, true));
    assert_eq!(
        e,
        Exhaustion::SignedInt { neg: vec![Range::new(2, 2)], pos: vec![Range::new(3, 3)] },
    );
    e.exhaust_int(SignedInt(0, true));
    assert_eq!(
        e,
        Exhaustion::SignedInt {
            neg: vec![Range::new(2, 2)],
            pos: vec![Range::new(0, 0), Range::new(3, 3)],
        },
    );
}

#[test]
fn two_ranges_are_merged() {
    let pairs = [
        (Range::new(1, 3), Range::new(4, 6), Some(Range::new(1, 6))),
        (Range::new(1, 9), Range::new(2, 5), Some(Range::new(1, 9))),
        (Range::new(0, 0), Range::new(1, 1), Some(Range::new(0, 1))),
        (Range::new(1, 3), Range::new(5, 6), None),
    ];
    for (a, b, merged) in pairs {
        assert_eq!(merge_ranges(a, b), merged);
        assert_eq!(merge_ranges(b, a), merged);
    }
}
