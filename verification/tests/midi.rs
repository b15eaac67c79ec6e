use midi_monitor::midi::{cc_name, Cc, SpecialControllers, CC_MAX};

#[test]
fn to_index_of_additions() {
    assert_eq!(Cc::NoteAftertouch.to_index(), 128);
    assert_eq!(Cc::PitchBend.to_index(), 129);
    assert_eq!(Cc::ChannelAftertouch.to_index(), 130);
    assert_eq!(Cc::NoteOn.to_index(), 131);
    assert_eq!(Cc::VelocityOn.to_index(), 132);
    assert_eq!(Cc::NoteOff.to_index(), 133);
    assert_eq!(Cc::VelocityOff.to_index(), 134);
}

#[test]
fn to_index_keeps_seven_bits_of_a_controller() {
    assert_eq!(Cc::Controller(0).to_index(), 0);
    assert_eq!(Cc::Controller(7).to_index(), 7);
    assert_eq!(Cc::Controller(127).to_index(), 127);
    assert_eq!(Cc::Controller(128).to_index(), 0);
    assert_eq!(Cc::Controller(200).to_index(), 72);
}

#[test]
fn from_index_examples() {
    assert_eq!(Cc::from_index(0), Cc::Controller(0));
    assert_eq!(Cc::from_index(64), Cc::Controller(64));
    assert_eq!(Cc::from_index(127), Cc::Controller(127));
    assert_eq!(Cc::from_index(128), Cc::NoteAftertouch);
    assert_eq!(Cc::from_index(129), Cc::PitchBend);
    assert_eq!(Cc::from_index(130), Cc::ChannelAftertouch);
    assert_eq!(Cc::from_index(131), Cc::NoteOn);
    assert_eq!(Cc::from_index(132), Cc::VelocityOn);
    assert_eq!(Cc::from_index(133), Cc::NoteOff);
    assert_eq!(Cc::from_index(134), Cc::VelocityOff);
}

#[test]
fn index_round_trip_over_every_lane() {
    for i in 0..CC_MAX {
        let i = i as u8;
        assert_eq!(Cc::from_index(i).to_index(), i);
    }
}

#[test]
fn controller_round_trip() {
    let all = [
        Cc::Controller(0),
        Cc::Controller(99),
        Cc::Controller(127),
        Cc::NoteOn,
        Cc::VelocityOn,
        Cc::ChannelAftertouch,
        Cc::PitchBend,
        Cc::NoteAftertouch,
        Cc::NoteOff,
        Cc::VelocityOff,
    ];
    for c in all {
        assert_eq!(Cc::from_index(c.to_index()), c);
    }
}

#[test]
fn cc_max_is_one_past_the_last_lane() {
    assert_eq!(CC_MAX, 135);
    assert_eq!(Cc::VelocityOff.to_index() as usize, CC_MAX - 1);
    let mut seen = [false; CC_MAX];
    for i in 0..CC_MAX {
        let idx = Cc::from_index(i as u8).to_index() as usize;
        assert!(!seen[idx]);
        seen[idx] = true;
    }
    assert!(seen.iter().all(|s| *s));
}

#[test]
fn lane_names() {
    assert_eq!(cc_name(0), Some("BS"));
    assert_eq!(cc_name(1), Some("mod"));
    assert_eq!(cc_name(3), None);
    assert_eq!(cc_name(7), Some("vol"));
    assert_eq!(cc_name(64), Some("sus"));
    assert_eq!(cc_name(123), Some("AN"));
    assert_eq!(cc_name(126), None);
    assert_eq!(cc_name(129), Some("pit"));
    assert_eq!(cc_name(134), Some("ov"));
    assert_eq!(cc_name(135), None);
}

#[test]
fn all_notes_off_controllers() {
    for cc in 0u8..=255 {
        let expected = (123..=127).contains(&cc);
        assert_eq!(SpecialControllers::does_cc_num_imply_all_notes_off(cc), expected);
    }
}
