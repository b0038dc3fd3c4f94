use ninecopy::stats::Accumulator;

#[test]
fn found_sets_only_found_counters() {
    let a = Accumulator::found(3, 77);
    assert_eq!(a.file_count_found, 3);
    assert_eq!(a.byte_count_found, 77);
    assert_eq!(a.file_count_copied, 0);
    assert_eq!(a.byte_count_copied, 0);
    assert_eq!(a.file_count_skipped, 0);
    assert_eq!(a.byte_count_skipped, 0);
}

#[test]
fn copies_sets_only_copied_counters() {
    let a = Accumulator::copies(2, 30);
    assert_eq!(a.file_count_copied, 2);
    assert_eq!(a.byte_count_copied, 30);
    assert_eq!(a.file_count_found, 0);
    assert_eq!(a.file_count_skipped, 0);
}

#[test]
fn skips_sets_only_skipped_counters() {
    let a = Accumulator::skips(1, 10);
    assert_eq!(a.file_count_skipped, 1);
    assert_eq!(a.byte_count_skipped, 10);
    assert_eq!(a.file_count_found, 0);
    assert_eq!(a.file_count_copied, 0);
}

#[test]
fn default_is_all_zero() {
    let a = Accumulator::default();
    assert_eq!(a.file_count_found, 0);
    assert_eq!(a.byte_count_found, 0);
    assert_eq!(a.file_count_copied, 0);
    assert_eq!(a.byte_count_copied, 0);
    assert_eq!(a.file_count_skipped, 0);
    assert_eq!(a.byte_count_skipped, 0);
}

#[test]
fn merge_adds_componentwise() {
    let a = Accumulator::found(1, 10).merge(Accumulator::copies(2, 20)).merge(
        Accumulator::skips(3, 30),
    );
    assert_eq!(a.file_count_found, 1);
    assert_eq!(a.byte_count_found, 10);
    assert_eq!(a.file_count_copied, 2);
    assert_eq!(a.byte_count_copied, 20);
    assert_eq!(a.file_count_skipped, 3);
    assert_eq!(a.byte_count_skipped, 30);
}

#[test]
fn merge_is_commutative_and_associative_on_values() {
    let deltas = [
        Accumulator::found(1, 10),
        Accumulator::copies(2, 20),
        Accumulator::skips(3, 30),
        Accumulator::found(4, 40),
    ];
    // merge in forward order
    let mut fwd = Accumulator::default();
    for d in deltas.iter() {
        fwd.merge_from(*d);
    }
    // merge in reverse order
    let mut rev = Accumulator::default();
    for d in deltas.iter().rev() {
        rev.merge_from(*d);
    }
    // merge with different grouping
    let grouped = deltas[0].merge(deltas[1]).merge(deltas[2].merge(deltas[3]));
    assert_eq!(fwd.file_count_found, rev.file_count_found);
    assert_eq!(fwd.byte_count_found, rev.byte_count_found);
    assert_eq!(fwd.file_count_copied, rev.file_count_copied);
    assert_eq!(fwd.byte_count_copied, rev.byte_count_copied);
    assert_eq!(fwd.file_count_skipped, rev.file_count_skipped);
    assert_eq!(fwd.byte_count_skipped, rev.byte_count_skipped);
    assert_eq!(fwd.file_count_found, grouped.file_count_found);
    assert_eq!(fwd.byte_count_found, grouped.byte_count_found);
    assert_eq!(fwd.file_count_copied, grouped.file_count_copied);
    assert_eq!(fwd.byte_count_copied, grouped.byte_count_copied);
    assert_eq!(fwd.file_count_skipped, grouped.file_count_skipped);
    assert_eq!(fwd.byte_count_skipped, grouped.byte_count_skipped);
}

#[test]
fn merge_from_accumulates_running_total() {
    let mut total = Accumulator::found(2, 30);
    total.merge_from(Accumulator::copies(1, 10));
    total.merge_from(Accumulator::copies(1, 20));
    assert_eq!(total.file_count_found, 2);
    assert_eq!(total.file_count_copied, 2);
    assert_eq!(total.byte_count_copied, 30);
}
