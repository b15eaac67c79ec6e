use midi_monitor::cc_mon::{
    add_entry, is_recordable, CcValueTime, CcValueTimeHistory, ChannelInfo, Histories, Lane, ACTIVE_WINDOW_NANOS,
    MAX_HISTORY,
};
use std::collections::VecDeque;

fn msg(channel: u8, cc_num: u8, value: u16, instant: u64) -> CcValueTime {
    CcValueTime { channel, cc_num, value, instant }
}

fn note_on(channel: u8, note: u8, instant: u64) -> CcValueTime {
    msg(channel, 131, CcValueTime::u8_value_to_steps(note), instant)
}

fn note_off(channel: u8, note: u8, instant: u64) -> CcValueTime {
    msg(channel, 133, CcValueTime::u8_value_to_steps(note), instant)
}

#[test]
fn value_conversions() {
    assert_eq!(CcValueTime::u8_value_to_steps(0), 0);
    assert_eq!(CcValueTime::u8_value_to_steps(1), 129);
    assert_eq!(CcValueTime::u8_value_to_steps(127), 16383);
    assert_eq!(CcValueTime::u8_value_to_steps(255), 32895);
    for b in 0u8..=255 {
        let v = msg(0, 0, CcValueTime::u8_value_to_steps(b), 0);
        assert_eq!(v.get_value_as_u8(), b);
        assert_eq!(v.get_value_as_127_floor(), b as u16);
    }
}

#[test]
fn value_as_u8_rounds_to_nearest() {
    assert_eq!(msg(0, 0, 64, 0).get_value_as_u8(), 0);
    assert_eq!(msg(0, 0, 65, 0).get_value_as_u8(), 1);
    assert_eq!(msg(0, 0, 8191, 0).get_value_as_u8(), 63);
    assert_eq!(msg(0, 0, 8192, 0).get_value_as_u8(), 64);
    assert_eq!(msg(0, 0, 16383, 0).get_value_as_u8(), 127);
    assert_eq!(msg(0, 0, 65535, 0).get_value_as_u8(), 255);
    assert_eq!(msg(0, 0, 128, 0).get_value_as_127_floor(), 0);
    assert_eq!(msg(0, 0, 16382, 0).get_value_as_127_floor(), 126);
}

#[test]
fn new_channel_is_silent_and_active_for_a_while() {
    let t = 7_000_000_000;
    let c = ChannelInfo::new(t);
    assert_eq!(c.instant_last_active, t);
    assert!(c.is_active(t + ACTIVE_WINDOW_NANOS - 1));
    assert!(!c.is_active(t + ACTIVE_WINDOW_NANOS));
    assert_eq!(c.id, 0);
    assert_eq!(c.note_count, 0);
    assert!(c.notes_on.iter().all(|n| !*n));
}

#[test]
fn channel_activity() {
    let mut c = ChannelInfo::new(0);
    c.instant_last_active = 5_000_000_000;
    assert!(c.is_active(5_000_000_000));
    assert!(c.is_active(5_000_000_000 + ACTIVE_WINDOW_NANOS - 1));
    assert!(!c.is_active(5_000_000_000 + ACTIVE_WINDOW_NANOS));
    assert!(c.is_active(1));
    c.process(&note_on(0, 60, 0));
    assert!(c.is_active(u64::MAX));
}

#[test]
fn notes_on_and_off() {
    let mut c = ChannelInfo::new(0);
    c.process(&note_on(3, 60, 10));
    assert!(c.notes_on[60]);
    assert_eq!(c.note_count, 1);
    assert_eq!(c.instant_last_active, 10);
    c.process(&note_on(3, 60, 5));
    assert_eq!(c.note_count, 1);
    assert_eq!(c.instant_last_active, 10);
    c.process(&note_on(3, 64, 20));
    assert_eq!(c.note_count, 2);
    c.process(&note_off(3, 60, 30));
    assert!(!c.notes_on[60]);
    assert!(c.notes_on[64]);
    assert_eq!(c.note_count, 1);
    c.process(&note_off(3, 60, 40));
    assert_eq!(c.note_count, 1);
    assert_eq!(c.instant_last_active, 40);
}

#[test]
fn all_notes_off_clears_the_channel() {
    let mut c = ChannelInfo::new(0);
    c.process(&note_on(0, 1, 1));
    c.process(&note_on(0, 2, 1));
    c.process(&note_on(0, 127, 1));
    assert_eq!(c.note_count, 3);
    c.process(&msg(0, 123, 0, 2));
    assert_eq!(c.note_count, 0);
    assert!(c.notes_on.iter().all(|n| !*n));
    c.process(&note_on(0, 1, 3));
    c.process(&msg(0, 127, 0, 4));
    assert_eq!(c.note_count, 0);
    c.process(&note_on(0, 1, 5));
    c.process(&msg(0, 122, 0, 6));
    assert_eq!(c.note_count, 1);
}

fn empty_lanes(n: usize) -> Vec<CcValueTimeHistory> {
    (0..n).map(|_| CcValueTimeHistory { history: VecDeque::new() }).collect()
}

#[test]
fn add_entry_appends_to_its_lane() {
    let mut lanes = empty_lanes(3);
    add_entry(&mut lanes, msg(0, 1, 5, 0));
    add_entry(&mut lanes, msg(2, 1, 6, 1));
    assert_eq!(lanes[0].history.len(), 0);
    assert_eq!(lanes[1].history.iter().map(|v| v.value).collect::<Vec<_>>(), vec![5, 6]);
    assert_eq!(lanes[2].history.len(), 0);
}

#[test]
fn add_entry_ignores_a_lane_that_does_not_exist() {
    let mut lanes = empty_lanes(3);
    add_entry(&mut lanes, msg(0, 3, 5, 0));
    add_entry(&mut lanes, msg(0, 200, 5, 0));
    assert!(lanes.iter().all(|l| l.history.is_empty()));
}

#[test]
fn history_keeps_the_most_recent_values() {
    let mut lanes = empty_lanes(1);
    for k in 0..(MAX_HISTORY as u64 + 50) {
        add_entry(&mut lanes, msg(0, 0, 0, k));
        assert!(lanes[0].history.len() <= MAX_HISTORY);
    }
    assert_eq!(lanes[0].history.len(), MAX_HISTORY);
    let times: Vec<u64> = lanes[0].history.iter().map(|v| v.instant).collect();
    let expected: Vec<u64> = (50..(MAX_HISTORY as u64 + 50)).collect();
    assert_eq!(times, expected);
}

#[test]
fn empty_for_channel() {
    let mut h = CcValueTimeHistory { history: VecDeque::new() };
    assert!(h.is_empty_for_channel(0));
    h.history.push_back(msg(2, 0, 0, 0));
    h.history.push_back(msg(5, 0, 0, 0));
    assert!(h.is_empty_for_channel(0));
    assert!(!h.is_empty_for_channel(2));
    assert!(!h.is_empty_for_channel(5));
}

#[test]
fn new_histories() {
    let h = Histories::new(0);
    assert_eq!(h.history_per_cc.len(), 135);
    assert!(h.history_per_cc.iter().all(|l| l.history.is_empty()));
    assert_eq!(h.channel_id_count, 0);
    assert!(h.info_per_channel.iter().all(|c| c.note_count == 0 && c.id == 0));
    assert_eq!(h.count_of_active_ccs(), 0);
}

#[test]
fn update_records_and_numbers_active_channels() {
    let mut h = Histories::new(0);
    let now = 100 * ACTIVE_WINDOW_NANOS;
    let received = vec![
        msg(4, 7, 100, now - 10),
        note_on(9, 60, now - 5 * ACTIVE_WINDOW_NANOS),
        msg(2, 10, 200, now - 2 * ACTIVE_WINDOW_NANOS),
        msg(12, 7, 300, now),
    ];
    h.update_from_state(&received, now);
    assert_eq!(h.channel_id_count, 3);
    let ids: Vec<u8> = h.info_per_channel.iter().map(|c| c.id).collect();
    let mut expected = vec![0u8; 16];
    expected[4] = 1;
    expected[9] = 2;
    expected[12] = 3;
    assert_eq!(ids, expected);
    assert_eq!(h.history_per_cc[7].history.len(), 2);
    assert_eq!(h.history_per_cc[131].history.len(), 1);
    assert_eq!(h.count_of_active_ccs(), 3);

    let later = now + 2 * ACTIVE_WINDOW_NANOS;
    h.update_from_state(&vec![], later);
    assert_eq!(h.channel_id_count, 1);
    assert_eq!(h.info_per_channel[9].id, 1);
    assert_eq!(h.info_per_channel[4].id, 0);
}

#[test]
fn record_one_message() {
    let mut h = Histories::new(0);
    h.record(note_on(1, 64, 7));
    assert!(h.info_per_channel[1].notes_on[64]);
    assert_eq!(h.info_per_channel[1].instant_last_active, 7);
    assert_eq!(h.history_per_cc[131].history.len(), 1);
    assert_eq!(h.info_per_channel[0].note_count, 0);
}

#[test]
fn display_lanes_by_channel_without_note_lanes() {
    let mut h = Histories::new(0);
    let received = vec![
        msg(1, 7, 1, 0),
        msg(0, 10, 1, 0),
        msg(0, 7, 1, 0),
        note_on(0, 60, 0),
        msg(0, 132, 1, 0),
        msg(1, 129, 1, 0),
    ];
    h.update_from_state(&received, 0);
    assert_eq!(
        h.display_lanes(),
        vec![
            Lane { channel: 0, cc_num: 7 },
            Lane { channel: 0, cc_num: 10 },
            Lane { channel: 1, cc_num: 7 },
            Lane { channel: 1, cc_num: 129 },
        ]
    );
}

#[test]
fn recordable_messages() {
    assert!(is_recordable(&msg(0, 0, 0, 0)));
    assert!(is_recordable(&msg(15, 134, 65535, 0)));
    assert!(!is_recordable(&msg(16, 0, 0, 0)));
    assert!(!is_recordable(&msg(0, 135, 0, 0)));
    assert!(is_recordable(&note_on(0, 127, 0)));
    assert!(!is_recordable(&msg(0, 131, 128 * 129, 0)));
    assert!(!is_recordable(&msg(0, 133, 128 * 129, 0)));
    assert!(is_recordable(&msg(0, 132, 128 * 129, 0)));
}

#[test]
fn new_channels_are_active_for_a_while() {
    let t = 3 * ACTIVE_WINDOW_NANOS;
    let mut h = Histories::new(t);
    assert!(h.info_per_channel.iter().all(|c| c.instant_last_active == t));
    h.update_from_state(&vec![], t + ACTIVE_WINDOW_NANOS - 1);
    assert_eq!(h.channel_id_count, 16);
    let ids: Vec<u8> = h.info_per_channel.iter().map(|c| c.id).collect();
    assert_eq!(ids, (1..=16).collect::<Vec<u8>>());
    h.update_from_state(&vec![], t + ACTIVE_WINDOW_NANOS);
    assert_eq!(h.channel_id_count, 0);
}
