use dashmap::DashMap;
use eznet::reader::Reader;
use eznet::sequence::{drop_sequenced_common, new_seq_table, seq_id_is_newer};

#[test]
fn drop_sequenced_common_test_0() {
    let mut seq = DashMap::new();
    seq.insert(0, 0);

    assert!(drop_sequenced_common(0, 1, &mut seq) == true);
    assert!(drop_sequenced_common(0, 1, &mut seq) == false);
    assert!(drop_sequenced_common(0, 1, &mut seq) == false);
    assert!(drop_sequenced_common(0, 2, &mut seq) == true);
    assert!(drop_sequenced_common(0, 2, &mut seq) == false);
    assert!(drop_sequenced_common(0, 2, &mut seq) == false);
    assert!(drop_sequenced_common(0, 200, &mut seq) == true);
    assert!(drop_sequenced_common(0, 2, &mut seq) == false);
    assert!(drop_sequenced_common(0, u16::MAX / 4, &mut seq) == true);
    assert!(drop_sequenced_common(0, u16::MAX / 2, &mut seq) == true);
    assert!(drop_sequenced_common(0, u16::MAX / 4 * 3, &mut seq) == true);
    assert!(drop_sequenced_common(0, u16::MAX - 100, &mut seq) == true);
    assert!(drop_sequenced_common(0, u16::MAX - 100, &mut seq) == false);
    assert!(drop_sequenced_common(0, u16::MAX - 99, &mut seq) == true);
    assert!(drop_sequenced_common(0, u16::MAX - 99, &mut seq) == false);
    assert!(drop_sequenced_common(0, 0, &mut seq) == true);
    assert!(drop_sequenced_common(0, 0, &mut seq) == false);
}

#[test]
fn reader_drop_sequenced_common_test_0() {
    let mut seq = DashMap::new();
    seq.insert(0, 0);

    assert!(Reader::seq_id_should_drop(0, 1, &mut seq) == true);
    assert!(Reader::seq_id_should_drop(0, 1, &mut seq) == false);
    assert!(Reader::seq_id_should_drop(0, 1, &mut seq) == false);
    assert!(Reader::seq_id_should_drop(0, 2, &mut seq) == true);
    assert!(Reader::seq_id_should_drop(0, 2, &mut seq) == false);
    assert!(Reader::seq_id_should_drop(0, 2, &mut seq) == false);
    assert!(Reader::seq_id_should_drop(0, 200, &mut seq) == true);
    assert!(Reader::seq_id_should_drop(0, 2, &mut seq) == false);
    assert!(Reader::seq_id_should_drop(0, u16::MAX / 4, &mut seq) == true);
    assert!(Reader::seq_id_should_drop(0, u16::MAX / 2, &mut seq) == true);
    assert!(Reader::seq_id_should_drop(0, u16::MAX / 4 * 3, &mut seq) == true);
    assert!(Reader::seq_id_should_drop(0, u16::MAX - 100, &mut seq) == true);
    assert!(Reader::seq_id_should_drop(0, u16::MAX - 100, &mut seq) == false);
    assert!(Reader::seq_id_should_drop(0, u16::MAX - 99, &mut seq) == true);
    assert!(Reader::seq_id_should_drop(0, u16::MAX - 99, &mut seq) == false);
    assert!(Reader::seq_id_should_drop(0, 0, &mut seq) == true);
    assert!(Reader::seq_id_should_drop(0, 0, &mut seq) == false);
}

#[test]
fn acceptance_matches_window_formula() {
    let samples: [u16; 9] = [0, 1, 2, 100, 32767, 32768, 32769, 65534, 65535];
    for &r in samples.iter() {
        for &s in samples.iter() {
            let delta = (s as i64 - r as i64).rem_euclid(65536);
            assert_eq!(seq_id_is_newer(r, s), delta < 32768, "r={} s={}", r, s);
        }
    }
    assert!(seq_id_is_newer(0, 0));
    assert!(seq_id_is_newer(65535, 32766));
    assert!(!seq_id_is_newer(65535, 32767));
}

#[test]
fn naive_sequence_of_arrivals() {
    let mut seq = new_seq_table();
    let ids: [u16; 8] = [1, 1, 2, 200, 2, 65435, 65436, 0];
    let got: Vec<bool> = ids.iter().map(|&s| drop_sequenced_common(0, s, &mut seq)).collect();
    // 65435 lies 65234 steps ahead of the expected 201, past the half
    // window, so it counts as older, as do 65436 and then 0.
    assert_eq!(got, vec![true, false, true, true, false, false, false, false]);
}

#[test]
fn wrap_accepts_continued_arrivals() {
    let mut seq = new_seq_table();
    seq.insert(3, 65530);
    for s in 65530u16..=65535 {
        assert!(drop_sequenced_common(3, s, &mut seq));
    }
    assert!(drop_sequenced_common(3, 0, &mut seq));
    assert!(drop_sequenced_common(3, 1, &mut seq));
    assert!(!drop_sequenced_common(3, 65535, &mut seq));
}

#[test]
fn streams_are_tracked_apart() {
    let mut seq = new_seq_table();
    assert!(drop_sequenced_common(1, 500, &mut seq));
    assert!(!drop_sequenced_common(1, 400, &mut seq));
    assert!(drop_sequenced_common(2, 400, &mut seq));
}
