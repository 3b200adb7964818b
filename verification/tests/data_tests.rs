//! Behavior of the point collection: mutations, undo/redo, capacity,
//! rounding, and the bounding box. Coordinates are fixed-point `i64`
//! values counting units of 10^-10, so `1.0` is `10_000_000_000`.

use manual_data_creator::data_definition::{Data, DataLabel, DataPoint, InputError, MinMaxPair};

const UNIT: i64 = 10_000_000_000;

fn point(x: i64, y: i64, label: DataLabel) -> DataPoint {
    DataPoint { x, y, label }
}

#[test]
fn add_appends_point() {
    let mut d = Data::default();
    let r = d.add(Some((UNIT, 2 * UNIT)), DataLabel::Normal);
    assert_eq!(r, Ok(()));
    assert_eq!(d.points(), &[point(UNIT, 2 * UNIT, DataLabel::Normal)]);
    assert!(!d.is_empty());
    assert!(d.has_undo());
    assert!(!d.has_redo());
}

#[test]
fn add_without_coordinate_fails_and_mutates_nothing() {
    let mut d = Data::default();
    let r = d.add(None, DataLabel::Normal);
    assert_eq!(r, Err(InputError::NoCoordinate));
    assert!(d.is_empty());
    assert!(!d.has_undo());
}

#[test]
fn delete_without_coordinate_fails() {
    let mut d = Data::default();
    d.add(Some((0, 0)), DataLabel::Normal).unwrap();
    let r = d.delete(None, DataLabel::Normal);
    assert_eq!(r, Err(InputError::NoCoordinate));
    assert_eq!(d.points().len(), 1);
}

#[test]
fn delete_with_no_candidate_fails() {
    let mut d = Data::default();
    d.add(Some((0, 0)), DataLabel::Normal).unwrap();
    let r = d.delete(Some((0, 0)), DataLabel::Anomaly);
    assert_eq!(r, Err(InputError::NothingToDelete));
    assert_eq!(d.points().len(), 1);
}

#[test]
fn delete_removes_nearest_matching_point() {
    let mut d = Data::default();
    d.add(Some((0, 0)), DataLabel::Normal).unwrap();
    d.add(Some((5 * UNIT, 0)), DataLabel::Normal).unwrap();
    d.add(Some((4 * UNIT, 0)), DataLabel::Anomaly).unwrap();
    // Nearest to (4.5, 0) over all labels is the anomaly, but only normal
    // points are candidates; of those the one at (5, 0) is nearest.
    let r = d.delete(Some((9 * UNIT / 2, 0)), DataLabel::Normal);
    assert_eq!(r, Ok(()));
    assert_eq!(
        d.points(),
        &[
            point(0, 0, DataLabel::Normal),
            point(4 * UNIT, 0, DataLabel::Anomaly),
        ]
    );
}

#[test]
fn delete_tie_keeps_lower_index() {
    // Two points at equal distance from the query, equal label: the one
    // with the lower original index goes.
    let mut d = Data::default();
    d.add(Some((0, 2 * UNIT)), DataLabel::Normal).unwrap();
    d.add(Some((0, -2 * UNIT)), DataLabel::Normal).unwrap();
    let r = d.delete(Some((0, 0)), DataLabel::Normal);
    assert_eq!(r, Ok(()));
    assert_eq!(d.points(), &[point(0, -2 * UNIT, DataLabel::Normal)]);
}

#[test]
fn rounding_two_decimal_places_stores_rounded_point() {
    // 1.2345 rounds to 1.23 and -0.6789 to -0.68 at two decimal places.
    let mut d = Data::default();
    d.set_rounding_decimal_places(2);
    d.add(Some((12_345_000_000, -6_789_000_000)), DataLabel::Normal)
        .unwrap();
    assert_eq!(
        d.points(),
        &[point(12_300_000_000, -6_800_000_000, DataLabel::Normal)]
    );
    // Undo removes exactly the stored (rounded) point.
    assert_eq!(d.undo(), Ok(()));
    assert!(d.is_empty());
}

#[test]
fn rounding_zero_decimal_places_rounds_half_away_from_zero() {
    let mut d = Data::default();
    d.set_rounding_decimal_places(0);
    d.add(Some((UNIT / 2, -UNIT / 2)), DataLabel::Normal).unwrap();
    assert_eq!(d.points(), &[point(UNIT, -UNIT, DataLabel::Normal)]);
}

#[test]
fn rounding_toggles() {
    let mut d = Data::default();
    assert!(!d.is_rounding_enabled());
    d.set_rounding_enabled(true);
    assert!(d.is_rounding_enabled());
    assert_eq!(d.rounding_decimal_places(), Some(0));
    d.set_rounding_decimal_places(3);
    d.set_rounding_enabled(true);
    assert_eq!(d.rounding_decimal_places(), Some(3));
    d.set_rounding_enabled(false);
    assert!(!d.is_rounding_enabled());
    assert_eq!(d.rounding_decimal_places(), None);
}

#[test]
fn undo_redo_roundtrip_of_mixed_operations() {
    let mut d = Data::default();
    d.add(Some((UNIT, UNIT)), DataLabel::Normal).unwrap();
    d.add(Some((2 * UNIT, 0)), DataLabel::Anomaly).unwrap();
    let before: Vec<DataPoint> = d.points().to_vec();

    d.add(Some((3 * UNIT, 0)), DataLabel::Normal).unwrap();
    d.delete(Some((2 * UNIT, 0)), DataLabel::Anomaly).unwrap();
    d.clear_points();
    assert!(d.is_empty());

    assert_eq!(d.undo(), Ok(())); // undo the clear
    assert_eq!(d.undo(), Ok(())); // undo the delete
    assert_eq!(d.undo(), Ok(())); // undo the add
    assert_eq!(d.points(), before.as_slice());

    assert_eq!(d.redo(), Ok(())); // redo the add
    assert_eq!(d.redo(), Ok(())); // redo the delete
    assert_eq!(d.redo(), Ok(())); // redo the clear
    assert!(d.is_empty());
    assert_eq!(d.redo(), Err(InputError::NoHistory));

    // And all the way back again: the clear's points come back intact.
    assert_eq!(d.undo(), Ok(()));
    assert_eq!(d.undo(), Ok(()));
    assert_eq!(d.undo(), Ok(()));
    assert_eq!(d.points(), before.as_slice());
}

#[test]
fn undo_of_delete_restores_original_index() {
    let mut d = Data::default();
    d.add(Some((0, 0)), DataLabel::Normal).unwrap();
    d.add(Some((UNIT, 0)), DataLabel::Normal).unwrap();
    d.add(Some((2 * UNIT, 0)), DataLabel::Normal).unwrap();
    d.delete(Some((UNIT, 0)), DataLabel::Normal).unwrap();
    assert_eq!(d.points().len(), 2);
    assert_eq!(d.undo(), Ok(()));
    assert_eq!(
        d.points(),
        &[
            point(0, 0, DataLabel::Normal),
            point(UNIT, 0, DataLabel::Normal),
            point(2 * UNIT, 0, DataLabel::Normal),
        ]
    );
}

#[test]
fn undo_with_no_history_fails() {
    let mut d = Data::default();
    assert_eq!(d.undo(), Err(InputError::NoHistory));
    assert_eq!(d.redo(), Err(InputError::NoHistory));
}

#[test]
fn redo_invalidated_by_new_mutation() {
    let mut d = Data::default();
    d.add(Some((0, 0)), DataLabel::Normal).unwrap();
    assert_eq!(d.undo(), Ok(()));
    assert!(d.has_redo());
    d.add(Some((UNIT, 0)), DataLabel::Normal).unwrap();
    assert!(!d.has_redo());
    assert_eq!(d.redo(), Err(InputError::NoHistory));
}

#[test]
fn redo_invalidated_by_delete_and_clear() {
    let mut d = Data::default();
    d.add(Some((0, 0)), DataLabel::Normal).unwrap();
    d.add(Some((UNIT, 0)), DataLabel::Normal).unwrap();
    d.undo().unwrap();
    assert!(d.has_redo());
    d.delete(Some((0, 0)), DataLabel::Normal).unwrap();
    assert!(!d.has_redo());

    d.undo().unwrap();
    assert!(d.has_redo());
    d.clear_points();
    assert!(!d.has_redo());
}

#[test]
fn capacity_two_evicts_oldest_add() {
    // Capacity 2: add A, B, C. The undo side holds the events for B and C
    // only; undoing twice leaves exactly [A], and no further undo exists.
    let mut d = Data::default();
    d.set_history_size(Some(2));
    d.add(Some((UNIT, 0)), DataLabel::Normal).unwrap(); // A
    d.add(Some((2 * UNIT, 0)), DataLabel::Normal).unwrap(); // B
    d.add(Some((3 * UNIT, 0)), DataLabel::Normal).unwrap(); // C
    assert_eq!(d.undo(), Ok(())); // removes C
    assert_eq!(d.undo(), Ok(())); // removes B
    assert_eq!(d.points(), &[point(UNIT, 0, DataLabel::Normal)]);
    assert_eq!(d.undo(), Err(InputError::NoHistory)); // A's event was evicted
}

#[test]
fn shrinking_history_size_trims_oldest_entries() {
    let mut d = Data::default();
    d.set_history_size(None);
    for i in 0..5 {
        d.add(Some((i * UNIT, 0)), DataLabel::Normal).unwrap();
    }
    d.set_history_size(Some(2));
    assert_eq!(d.undo(), Ok(()));
    assert_eq!(d.undo(), Ok(()));
    assert_eq!(d.undo(), Err(InputError::NoHistory));
    assert_eq!(d.points().len(), 3);
}

#[test]
fn history_size_accessors() {
    let mut d = Data::default();
    assert_eq!(d.max_history_size(), Some(200));
    assert_eq!(d.get_default_max_history_size(), Some(200));
    d.set_history_size(None);
    assert_eq!(d.max_history_size(), None);
    d.set_history_size(Some(7));
    assert_eq!(d.max_history_size(), Some(7));
}

#[test]
fn clear_history_forgets_both_sides() {
    let mut d = Data::default();
    assert_eq!(d.clear_history(), Err(InputError::NoHistory));
    d.add(Some((0, 0)), DataLabel::Normal).unwrap();
    d.undo().unwrap();
    assert!(d.has_redo());
    assert!(d.has_history());
    assert_eq!(d.clear_history(), Ok(()));
    assert!(!d.has_history());
    assert_eq!(d.undo(), Err(InputError::NoHistory));
    assert_eq!(d.redo(), Err(InputError::NoHistory));
}

#[test]
fn bounding_box_of_empty_collection_is_unit_box_with_margin() {
    // The per-axis fold is seeded with [-1, 1]; the margin then widens the
    // range by a twentieth on each side: [-1.1, 1.1] on both axes.
    let mut d = Data::default();
    let b = d.get_points_min_max_w_margin();
    assert_eq!(
        b,
        MinMaxPair {
            min_x: -11_000_000_000,
            min_y: -11_000_000_000,
            max_x: 11_000_000_000,
            max_y: 11_000_000_000,
        }
    );
}

#[test]
fn bounding_box_covers_points_with_margin() {
    let mut d = Data::default();
    d.add(Some((3 * UNIT, UNIT)), DataLabel::Normal).unwrap();
    let b = d.get_points_min_max_w_margin();
    // x range [-1, 3] widened by 0.2 per side; y range [-1, 1] by 0.1.
    assert_eq!(
        b,
        MinMaxPair {
            min_x: -12_000_000_000,
            min_y: -11_000_000_000,
            max_x: 32_000_000_000,
            max_y: 11_000_000_000,
        }
    );
}

#[test]
fn bounding_box_is_stable_without_mutation_and_fresh_after_one() {
    let mut d = Data::default();
    d.add(Some((2 * UNIT, 2 * UNIT)), DataLabel::Anomaly).unwrap();
    let b1 = d.get_points_min_max_w_margin();
    let b2 = d.get_points_min_max_w_margin();
    assert_eq!(b1, b2);
    d.clear_points();
    let b3 = d.get_points_min_max_w_margin();
    assert_ne!(b1, b3);
    assert_eq!(b3.max_x, 11_000_000_000);
    // An undo is a mutation too: the box must reflect the restored point.
    d.undo().unwrap();
    let b4 = d.get_points_min_max_w_margin();
    assert_eq!(b1, b4);
}

#[test]
fn margin_in_expected_range() {
    // The margin widens each axis range, but by no more than a factor of
    // two: for the empty collection the raw range is 2.0 units per axis,
    // so the widened range must lie between 2.0 and 4.0 units.
    let mut d = Data::default();
    let b = d.get_points_min_max_w_margin();
    let range_x = b.max_x - b.min_x;
    let range_y = b.max_y - b.min_y;
    assert!(2 * UNIT <= range_x && range_x <= 4 * UNIT);
    assert!(2 * UNIT <= range_y && range_y <= 4 * UNIT);
}

#[test]
fn error_messages_name_the_condition() {
    assert_eq!(
        InputError::NoCoordinate.message(),
        "Cursor not detected over the plot"
    );
    assert_eq!(
        InputError::NothingToDelete.message(),
        "No suitable point available for deleting"
    );
    assert_eq!(InputError::NoHistory.message(), "No history available");
}

#[test]
fn labels_report_their_kind() {
    assert!(DataLabel::Normal.is_normal());
    assert!(!DataLabel::Normal.is_anomaly());
    assert!(DataLabel::Anomaly.is_anomaly());
    assert!(!DataLabel::Anomaly.is_normal());
}
