use vstd::prelude::*;

use crate::cc_mon::{
    can_record, lemma_u8_value_round_trip, spec_process, spec_value_as_127_floor,
    spec_value_as_u8, spec_value_from_u8, CcValueTime, ChannelView,
};
use crate::midi::{spec_to_index, Cc};

verus! {

/// The MIDI events the monitor shows, with their values in steps of
/// `1 / VALUE_FULL_SCALE` (see `cc_mon`); any other event is `Other`.
#[derive(Copy, Clone, Debug, PartialEq, Eq, Structural)]
pub enum MidiEvent {
    MidiCc { channel: u8, cc: u8, value: u16 },
    NoteOn { channel: u8, note: u8, velocity: u16 },
    NoteOff { channel: u8, note: u8, velocity: u16 },
    MidiPitchBend { channel: u8, value: u16 },
    Other,
}

/// The message for lane `cc_num` with value `value`.
pub open spec fn spec_message(channel: u8, cc_num: u8, value: u16, now: u64) -> CcValueTime {
    CcValueTime { channel, cc_num, value, instant: now }
}

/// What the monitor records of an event received at `now`: a controller
/// change on its own lane; a note on as its note number on lane `NoteOn`
/// then its velocity on lane `VelocityOn`; a note off likewise on lanes
/// `NoteOff` and `VelocityOff`; a pitch bend on lane `PitchBend`; nothing
/// for any other event.
pub open spec fn spec_messages_for_event(event: MidiEvent, now: u64) -> Seq<CcValueTime> {
    match event {
        MidiEvent::MidiCc { channel, cc, value } => seq![spec_message(channel, cc, value, now)],
        MidiEvent::NoteOn { channel, note, velocity } => seq![
            spec_message(channel, 131, spec_value_from_u8(note), now),
            spec_message(channel, 132, velocity, now),
        ],
        MidiEvent::NoteOff { channel, note, velocity } => seq![
            spec_message(channel, 133, spec_value_from_u8(note), now),
            spec_message(channel, 134, velocity, now),
        ],
        MidiEvent::MidiPitchBend { channel, value } => seq![
            spec_message(channel, 129, value, now),
        ],
        MidiEvent::Other => seq![],
    }
}

/// The messages to hand to the display for an event received at `now`, in
/// the order they are to be recorded.
pub fn messages_for_event(event: &MidiEvent, now: u64) -> (r: Vec<CcValueTime>)
    ensures
        r@ == spec_messages_for_event(*event, now),
{
    let mut r: Vec<CcValueTime> = Vec::new();
    match *event {
        MidiEvent::MidiCc { channel, cc, value } => {
            r.push(CcValueTime { channel, cc_num: cc, value, instant: now });
        },
        MidiEvent::NoteOn { channel, note, velocity } => {
            r.push(
                CcValueTime {
                    channel,
                    cc_num: Cc::NoteOn.to_index(),
                    value: CcValueTime::u8_value_to_steps(note),
                    instant: now,
                },
            );
            r.push(
                CcValueTime {
                    channel,
                    cc_num: Cc::VelocityOn.to_index(),
                    value: velocity,
                    instant: now,
                },
            );
        },
        MidiEvent::NoteOff { channel, note, velocity } => {
            r.push(
                CcValueTime {
                    channel,
                    cc_num: Cc::NoteOff.to_index(),
                    value: CcValueTime::u8_value_to_steps(note),
                    instant: now,
                },
            );
            r.push(
                CcValueTime {
                    channel,
                    cc_num: Cc::VelocityOff.to_index(),
                    value: velocity,
                    instant: now,
                },
            );
        },
        MidiEvent::MidiPitchBend { channel, value } => {
            r.push(
                CcValueTime {
                    channel,
                    cc_num: Cc::PitchBend.to_index(),
                    value,
                    instant: now,
                },
            );
        },
        MidiEvent::Other => {},
    }
    assert(r@ =~= spec_messages_for_event(*event, now));
    r
}

/// A channel after each of `values` in turn.
pub open spec fn spec_process_all(c: ChannelView, values: Seq<CcValueTime>) -> ChannelView
    decreases values.len(),
{
    if values.len() == 0 {
        c
    } else {
        spec_process(spec_process_all(c, values.drop_last()), values.last())
    }
}

/// Every message of a note on or off of a note below 128 on one of the
/// sixteen channels can be recorded.
pub proof fn lemma_note_messages_recordable(event: MidiEvent, now: u64)
    requires
        event matches MidiEvent::NoteOn { channel, note, .. } ==> channel < 16 && note < 128,
        event matches MidiEvent::NoteOff { channel, note, .. } ==> channel < 16 && note < 128,
        event matches MidiEvent::MidiCc { channel, cc, .. } ==> channel < 16 && cc < 128,
        event matches MidiEvent::MidiPitchBend { channel, .. } ==> channel < 16,
    ensures
        forall|k: int|
            0 <= k < spec_messages_for_event(event, now).len() ==> can_record(
                #[trigger] spec_messages_for_event(event, now)[k],
            ),
{
}

/// A note on makes its note sound on the channel and a later note off of the
/// same note silences it again: the channel's notes after both are those
/// before with that note off, and the note count is back where it was when
/// the note did not sound before.
pub proof fn lemma_note_on_then_off(
    c: ChannelView,
    channel: u8,
    note: u8,
    velocity_on: u16,
    velocity_off: u16,
    t_on: u64,
    t_off: u64,
)
    requires
        note < 128,
        c.notes.len() == 128,
    ensures
        ({
            let on = spec_process_all(
                c,
                spec_messages_for_event(MidiEvent::NoteOn { channel, note, velocity: velocity_on }, t_on),
            );
            let off = spec_process_all(
                on,
                spec_messages_for_event(
                    MidiEvent::NoteOff { channel, note, velocity: velocity_off },
                    t_off,
                ),
            );
            &&& on.notes == c.notes.update(note as int, true)
            &&& off.notes == c.notes.update(note as int, false)
            &&& !c.notes[note as int] ==> off.notes == c.notes
        }),
{
    let on_msgs = spec_messages_for_event(MidiEvent::NoteOn { channel, note, velocity: velocity_on }, t_on);
    let off_msgs = spec_messages_for_event(
        MidiEvent::NoteOff { channel, note, velocity: velocity_off },
        t_off,
    );
    assert(on_msgs.drop_last().drop_last() =~= Seq::<CcValueTime>::empty());
    assert(off_msgs.drop_last().drop_last() =~= Seq::<CcValueTime>::empty());
    reveal_with_fuel(spec_process_all, 3);
    lemma_u8_value_round_trip(note);
    let on = spec_process_all(c, on_msgs);
    let off = spec_process_all(on, off_msgs);
    let on1 = spec_process(c, on_msgs[0]);
    assert(on == spec_process(on1, on_msgs[1]));
    assert(on1.notes =~= c.notes.update(note as int, true));
    let off1 = spec_process(on, off_msgs[0]);
    assert(off == spec_process(off1, off_msgs[1]));
    assert(on.notes =~= c.notes.update(note as int, true));
    assert(off.notes =~= c.notes.update(note as int, false));
    if !c.notes[note as int] {
        assert(off.notes =~= c.notes);
    }
}

/// The messages of an event, all on its channel at the time it was received:
/// a controller change is its value on its controller's lane; a note on is
/// its note number on the `NoteOn` lane followed by its velocity on the
/// `VelocityOn` lane; a note off is its note number on the `NoteOff` lane
/// followed by its release velocity on the `VelocityOff` lane; a pitch bend
/// is its value on the `PitchBend` lane; any other event gives none.
pub proof fn lemma_event_messages(event: MidiEvent, now: u64)
    ensures
        ({
            let m = spec_messages_for_event(event, now);
            &&& forall|k: int| 0 <= k < m.len() ==> #[trigger] m[k].instant == now
            &&& match event {
                MidiEvent::MidiCc { channel, cc, value } => m.len() == 1 && m[0].channel == channel
                    && m[0].cc_num == cc && m[0].value == value,
                MidiEvent::NoteOn { channel, note, velocity } => {
                    &&& m.len() == 2
                    &&& m[0].channel == channel && m[1].channel == channel
                    &&& m[0].cc_num == spec_to_index(Cc::NoteOn)
                    &&& spec_value_as_127_floor(m[0].value) == note
                    &&& spec_value_as_u8(m[0].value) == note
                    &&& m[1].cc_num == spec_to_index(Cc::VelocityOn)
                    &&& m[1].value == velocity
                },
                MidiEvent::NoteOff { channel, note, velocity } => {
                    &&& m.len() == 2
                    &&& m[0].channel == channel && m[1].channel == channel
                    &&& m[0].cc_num == spec_to_index(Cc::NoteOff)
                    &&& spec_value_as_127_floor(m[0].value) == note
                    &&& spec_value_as_u8(m[0].value) == note
                    &&& m[1].cc_num == spec_to_index(Cc::VelocityOff)
                    &&& m[1].value == velocity
                },
                MidiEvent::MidiPitchBend { channel, value } => m.len() == 1 && m[0].channel
                    == channel && m[0].cc_num == spec_to_index(Cc::PitchBend) && m[0].value
                    == value,
                MidiEvent::Other => m.len() == 0,
            }
        }),
{
    match event {
        MidiEvent::NoteOn { note, .. } => lemma_u8_value_round_trip(note),
        MidiEvent::NoteOff { note, .. } => lemma_u8_value_round_trip(note),
        _ => {},
    }
}

} // verus!
