use midi_monitor::cc_mon::{CcValueTime, Histories};
use midi_monitor::plugin::{messages_for_event, MidiEvent};

fn m(channel: u8, cc_num: u8, value: u16, instant: u64) -> CcValueTime {
    CcValueTime { channel, cc_num, value, instant }
}

#[test]
fn controller_change_message() {
    let e = MidiEvent::MidiCc { channel: 2, cc: 7, value: 4000 };
    assert_eq!(messages_for_event(&e, 11), vec![m(2, 7, 4000, 11)]);
}

#[test]
fn note_on_messages() {
    let e = MidiEvent::NoteOn { channel: 1, note: 60, velocity: 9000 };
    assert_eq!(messages_for_event(&e, 5), vec![m(1, 131, 60 * 129, 5), m(1, 132, 9000, 5)]);
}

#[test]
fn note_off_messages() {
    let e = MidiEvent::NoteOff { channel: 15, note: 0, velocity: 0 };
    assert_eq!(messages_for_event(&e, 5), vec![m(15, 133, 0, 5), m(15, 134, 0, 5)]);
}

#[test]
fn pitch_bend_message() {
    let e = MidiEvent::MidiPitchBend { channel: 0, value: 8192 };
    assert_eq!(messages_for_event(&e, 1), vec![m(0, 129, 8192, 1)]);
}

#[test]
fn other_events_are_not_shown() {
    assert!(messages_for_event(&MidiEvent::Other, 1).is_empty());
}

#[test]
fn note_on_then_off_silences_the_note() {
    let mut h = Histories::new(0);
    let on = messages_for_event(&MidiEvent::NoteOn { channel: 3, note: 72, velocity: 1 }, 1);
    h.update_from_state(&on, 1);
    assert!(h.info_per_channel[3].notes_on[72]);
    assert_eq!(h.info_per_channel[3].note_count, 1);
    let off = messages_for_event(&MidiEvent::NoteOff { channel: 3, note: 72, velocity: 1 }, 2);
    h.update_from_state(&off, 2);
    assert!(!h.info_per_channel[3].notes_on[72]);
    assert_eq!(h.info_per_channel[3].note_count, 0);
}
