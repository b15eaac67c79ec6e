use vstd::prelude::*;

use crate::midi::{
    spec_from_index, spec_implies_all_notes_off, spec_to_index, Cc, SpecialControllers, CC_MAX,
};

verus! {

/// Full scale of a message value: a value `v` stands for the fraction
/// `v / VALUE_FULL_SCALE`, so that both 14-bit controllers (steps of 1/16383)
/// and 7-bit MIDI data bytes (steps of 1/127) are represented exactly.
pub const VALUE_FULL_SCALE: u16 = 16383;

/// Value steps per step of a 7-bit data byte: `127 * 129 == 16383`.
pub const VALUE_STEPS_PER_7BIT: u16 = 129;

/// Most values a lane keeps; when full, the oldest one is dropped.
pub const MAX_HISTORY: usize = 200;

/// Number of MIDI channels.
pub const CHANNEL_COUNT: usize = 16;

/// How long, in nanoseconds, a channel stays active after its last message.
pub const ACTIVE_WINDOW_NANOS: u64 = 1_000_000_000;

/// One received message: its channel, its lane (see `Cc::to_index`), its
/// value in steps of `1 / VALUE_FULL_SCALE`, and the time it was received, in
/// nanoseconds from a clock origin chosen by the caller.
#[derive(Copy, Clone, Debug, PartialEq, Eq, Structural)]
pub struct CcValueTime {
    pub channel: u8,
    pub cc_num: u8,
    pub value: u16,
    pub instant: u64,
}

/// The value a 7-bit data byte stands for.
pub open spec fn spec_value_from_u8(byte: u8) -> u16 {
    (byte * 129) as u16
}

/// The value scaled to 0..=127 and rounded to the nearest whole number
/// (halves away from zero), saturating at 255.
pub open spec fn spec_value_as_u8(value: u16) -> u8 {
    if (value + 64) / 129 > 255 {
        255
    } else {
        ((value + 64) / 129) as u8
    }
}

/// The value scaled to 0..=127 with the fraction dropped; for a note message
/// this is the note number.
pub open spec fn spec_value_as_127_floor(value: u16) -> u16 {
    value / 129
}

impl CcValueTime {
    /// The value that the 7-bit data byte `value` stands for.
    pub fn u8_value_to_steps(value: u8) -> (r: u16)
        ensures
            r == spec_value_from_u8(value),
            r as int == value * 129,
    {
        value as u16 * VALUE_STEPS_PER_7BIT
    }

    /// The value as a 7-bit data byte, rounded to the nearest.
    pub fn get_value_as_u8(&self) -> (r: u8)
        ensures
            r == spec_value_as_u8(self.value),
    {
        let q: u32 = (self.value as u32 + 64) / 129;
        if q > 255 {
            255
        } else {
            q as u8
        }
    }

    /// The value scaled to 0..=127 with the fraction dropped.
    pub fn get_value_as_127_floor(&self) -> (r: u16)
        ensures
            r == spec_value_as_127_floor(self.value),
    {
        self.value / VALUE_STEPS_PER_7BIT
    }
}

/// A data byte survives the trip to a value and back, both rounded and
/// truncated.
pub proof fn lemma_u8_value_round_trip(byte: u8)
    ensures
        spec_value_as_u8(spec_value_from_u8(byte)) == byte,
        spec_value_as_127_floor(spec_value_from_u8(byte)) == byte,
{
}

/// Number of `true` entries.
pub open spec fn count_true(s: Seq<bool>) -> nat
    decreases s.len(),
{
    if s.len() == 0 {
        0
    } else {
        count_true(s.drop_last()) + if s.last() {
            1nat
        } else {
            0nat
        }
    }
}

proof fn lemma_count_true_le_len(s: Seq<bool>)
    ensures
        count_true(s) <= s.len(),
    decreases s.len(),
{
    if s.len() > 0 {
        lemma_count_true_le_len(s.drop_last());
    }
}

proof fn lemma_count_true_all_false(s: Seq<bool>)
    requires
        forall|i: int| 0 <= i < s.len() ==> !s[i],
    ensures
        count_true(s) == 0,
    decreases s.len(),
{
    if s.len() > 0 {
        lemma_count_true_all_false(s.drop_last());
    }
}

proof fn lemma_count_true_update(s: Seq<bool>, i: int, b: bool)
    requires
        0 <= i < s.len(),
    ensures
        count_true(s.update(i, b)) + (if s[i] {
            1int
        } else {
            0int
        }) == count_true(s) + (if b {
            1int
        } else {
            0int
        }),
    decreases s.len(),
{
    let t = s.update(i, b);
    if i == s.len() - 1 {
        assert(t.drop_last() =~= s.drop_last());
    } else {
        assert(t.drop_last() =~= s.drop_last().update(i, b));
        lemma_count_true_update(s.drop_last(), i, b);
    }
}

/// What the monitor knows of one MIDI channel: when it last heard from it, the
/// display id it was given, which notes sound on it, and how many.
#[derive(Copy, Clone, Debug)]
pub struct ChannelInfo {
    pub instant_last_active: u64,
    pub id: u8,
    pub notes_on: [bool; 128],
    pub note_count: u8,
}

/// The notes of a channel after a message.
pub open spec fn spec_notes_after(notes: Seq<bool>, value: CcValueTime) -> Seq<bool> {
    let base = if spec_implies_all_notes_off(value.cc_num) {
        Seq::new(128, |i: int| false)
    } else {
        notes
    };
    let note = spec_value_as_127_floor(value.value) as int;
    match spec_from_index(value.cc_num) {
        Cc::NoteOn => base.update(note, true),
        Cc::NoteOff => base.update(note, false),
        _ => base,
    }
}

/// A message a channel can take: its lane exists, and a note message names
/// a note.
pub open spec fn can_process(value: CcValueTime) -> bool {
    &&& (value.cc_num as usize) < CC_MAX
    &&& (value.cc_num == 131 || value.cc_num == 133) ==> spec_value_as_127_floor(value.value)
        < 128
}

/// Whether a channel counts as active at `now`: it has a sounding note, or it
/// was heard from less than `ACTIVE_WINDOW_NANOS` ago (a last message later
/// than `now` counts as just now).
pub open spec fn spec_is_active(info: ChannelInfo, now: u64) -> bool {
    ||| info.note_count != 0
    ||| now < info.instant_last_active
    ||| now - info.instant_last_active < ACTIVE_WINDOW_NANOS
}

/// The state of a channel as the contracts see it; the note count is the
/// number of notes that sound.
pub struct ChannelView {
    pub last_active: u64,
    pub id: u8,
    pub notes: Seq<bool>,
}

impl View for ChannelInfo {
    type V = ChannelView;

    open spec fn view(&self) -> ChannelView {
        ChannelView { last_active: self.instant_last_active, id: self.id, notes: self.notes_on@ }
    }
}

/// A channel created at `now`: last heard from at `now`, no note, id 0.
pub open spec fn spec_new_channel(now: u64) -> ChannelView {
    ChannelView { last_active: now, id: 0, notes: Seq::new(128, |i: int| false) }
}

/// A channel after a message.
pub open spec fn spec_process(c: ChannelView, value: CcValueTime) -> ChannelView {
    ChannelView {
        last_active: if c.last_active < value.instant {
            value.instant
        } else {
            c.last_active
        },
        id: c.id,
        notes: spec_notes_after(c.notes, value),
    }
}

/// `spec_is_active` on the view of a channel.
pub open spec fn spec_view_is_active(c: ChannelView, now: u64) -> bool {
    ||| count_true(c.notes) != 0
    ||| now < c.last_active
    ||| now - c.last_active < ACTIVE_WINDOW_NANOS
}

impl ChannelInfo {
    /// A channel created at `now`: no sounding note, id 0, last heard from
    /// at `now`, so that it counts as active for `ACTIVE_WINDOW_NANOS`.
    pub fn new(now: u64) -> (r: Self)
        ensures
            r.wf(),
            r@ == spec_new_channel(now),
            r.note_count == 0,
    {
        let r = ChannelInfo { instant_last_active: now, id: 0, notes_on: [false; 128], note_count: 0 };
        proof {
            lemma_count_true_all_false(r.notes_on@);
            assert(r.notes_on@ =~= Seq::new(128, |i: int| false));
        }
        r
    }
}

impl ChannelInfo {
    /// The note count agrees with the notes that sound, of which there are 128.
    pub open spec fn wf(&self) -> bool {
        self.note_count == count_true(self.notes_on@)
    }

    /// Whether this channel is active at `cur_time`.
    pub fn is_active(&self, cur_time: u64) -> (r: bool)
        ensures
            r == spec_is_active(*self, cur_time),
            self.wf() ==> r == spec_view_is_active(self@, cur_time),
    {
        self.note_count != 0 || cur_time < self.instant_last_active || cur_time
            - self.instant_last_active < ACTIVE_WINDOW_NANOS
    }

    /// Takes a message of this channel into account: its time, an all notes
    /// off, a note on or a note off.
    pub fn process(&mut self, value: &CcValueTime)
        requires
            old(self).wf(),
            can_process(*value),
        ensures
            final(self).wf(),
            final(self)@ == spec_process(old(self)@, *value),
    {
        if self.instant_last_active < value.instant {
            self.instant_last_active = value.instant;
        }
        if SpecialControllers::does_cc_num_imply_all_notes_off(value.cc_num) {
            self.notes_on = [false; 128];
            self.note_count = 0;
            proof {
                lemma_count_true_all_false(self.notes_on@);
                assert(self.notes_on@ =~= Seq::new(128, |i: int| false));
            }
        }
        let ghost base = self.notes_on@;
        proof {
            lemma_count_true_le_len(self.notes_on@);
        }
        match Cc::from_index(value.cc_num) {
            Cc::NoteOn => {
                let note = value.get_value_as_127_floor() as usize;
                if !self.notes_on[note] {
                    proof {
                        lemma_count_true_update(self.notes_on@, note as int, true);
                    }
                    self.note_count += 1;
                    self.notes_on[note] = true;
                } else {
                    assert(base.update(note as int, true) =~= base);
                }
            },
            Cc::NoteOff => {
                let note = value.get_value_as_127_floor() as usize;
                if self.notes_on[note] {
                    proof {
                        lemma_count_true_update(self.notes_on@, note as int, false);
                    }
                    self.note_count -= 1;
                    self.notes_on[note] = false;
                } else {
                    assert(base.update(note as int, false) =~= base);
                }
            },
            _ => {},
        }
    }
}

/// A lane after one more value: appended at the back, with the oldest value
/// dropped from the front when the lane was full.
pub open spec fn spec_bounded_push(h: Seq<CcValueTime>, value: CcValueTime) -> Seq<CcValueTime> {
    if h.len() == MAX_HISTORY {
        h.drop_first().push(value)
    } else {
        h.push(value)
    }
}

/// All lanes after a value: it goes to the lane of its controller; a value
/// whose controller has no lane is ignored.
pub open spec fn spec_add_entry(lanes: Seq<Seq<CcValueTime>>, value: CcValueTime) -> Seq<
    Seq<CcValueTime>,
> {
    if (value.cc_num as int) < lanes.len() {
        lanes.update(value.cc_num as int, spec_bounded_push(lanes[value.cc_num as int], value))
    } else {
        lanes
    }
}

/// A lane after each of `values` in turn.
pub open spec fn spec_push_all(h: Seq<CcValueTime>, values: Seq<CcValueTime>) -> Seq<CcValueTime>
    decreases values.len(),
{
    if values.len() == 0 {
        h
    } else {
        spec_bounded_push(spec_push_all(h, values.drop_last()), values.last())
    }
}

/// A lane keeps the most recent values, oldest first: after any number of
/// values, a lane that held at most `MAX_HISTORY` holds the last
/// `MAX_HISTORY` of all it was given (or all of them, if fewer).
pub proof fn lemma_history_keeps_most_recent(h: Seq<CcValueTime>, values: Seq<CcValueTime>)
    requires
        h.len() <= MAX_HISTORY,
    ensures
        spec_push_all(h, values).len() <= MAX_HISTORY,
        spec_push_all(h, values) == (h + values).skip(
            if h.len() + values.len() > MAX_HISTORY {
                h.len() + values.len() - MAX_HISTORY
            } else {
                0
            },
        ),
    decreases values.len(),
{
    let all = h + values;
    if values.len() == 0 {
        assert(all =~= h);
        assert(all.skip(0) =~= h);
    } else {
        let prev = values.drop_last();
        lemma_history_keeps_most_recent(h, prev);
        let p = spec_push_all(h, prev);
        let n = h.len() + prev.len();
        let k = if n > MAX_HISTORY {
            n - MAX_HISTORY
        } else {
            0
        };
        assert((h + prev) =~= all.drop_last());
        let k2 = if n + 1 > MAX_HISTORY {
            n + 1 - MAX_HISTORY
        } else {
            0
        };
        if p.len() == MAX_HISTORY {
            assert(p.drop_first().push(values.last()) =~= all.skip(k2));
        } else {
            assert(p.push(values.last()) =~= all.skip(k2));
        }
    }
}

/// The values received on one lane, oldest at the front, newest at the back.
#[derive(Clone, Debug)]
pub struct CcValueTimeHistory {
    pub history: std::collections::VecDeque<CcValueTime>,
}

impl CcValueTimeHistory {
    /// Whether no value of this lane came from `channel`.
    pub fn is_empty_for_channel(&self, channel: u8) -> (r: bool)
        ensures
            r == forall|i: int| 0 <= i < self.history@.len() ==> self.history@[i].channel != channel,
    {
        let n = self.history.len();
        let mut i: usize = 0;
        while i < n
            invariant
                n == self.history@.len(),
                i <= n,
                forall|j: int| 0 <= j < i ==> self.history@[j].channel != channel,
            decreases n - i,
        {
            if self.history[i].channel == channel {
                return false;
            }
            i += 1;
        }
        true
    }
}

/// The lanes' values, lane by lane.
pub open spec fn lanes_view(v: Seq<CcValueTimeHistory>) -> Seq<Seq<CcValueTime>> {
    v.map_values(|h: CcValueTimeHistory| h.history@)
}

/// Adds a newly received value to the lane of its controller, dropping that
/// lane's oldest value when it is full; a value whose controller has no lane
/// is ignored.
pub fn add_entry(history_per_cc: &mut Vec<CcValueTimeHistory>, value: CcValueTime)
    ensures
        final(history_per_cc)@.len() == old(history_per_cc)@.len(),
        lanes_view(final(history_per_cc)@) == spec_add_entry(lanes_view(old(history_per_cc)@), value),
{
    let cc_num = value.cc_num as usize;
    if cc_num >= history_per_cc.len() {
        assert(lanes_view(history_per_cc@) =~= spec_add_entry(lanes_view(history_per_cc@), value));
        return;
    }
    let ghost before = lanes_view(history_per_cc@);
    let entry = &mut history_per_cc[cc_num];
    if entry.history.len() == MAX_HISTORY {
        entry.history.pop_front();
    }
    entry.history.push_back(value);
    assert(lanes_view(history_per_cc@) =~= spec_add_entry(before, value));
}

/// Number of active channels among the first `k`.
pub open spec fn active_before(channels: Seq<ChannelView>, now: u64, k: int) -> nat
    decreases k,
{
    if k <= 0 {
        0
    } else {
        active_before(channels, now, k - 1) + if spec_view_is_active(channels[k - 1], now) {
            1nat
        } else {
            0nat
        }
    }
}

proof fn lemma_active_before_le(channels: Seq<ChannelView>, now: u64, k: int)
    ensures
        active_before(channels, now, k) <= if k < 0 {
            0
        } else {
            k
        },
    decreases k,
{
    if k > 0 {
        lemma_active_before_le(channels, now, k - 1);
    }
}

/// The display id of channel `i`: active channels are numbered from 1 in
/// channel order, inactive ones get 0.
pub open spec fn spec_channel_id(channels: Seq<ChannelView>, now: u64, i: int) -> u8 {
    if spec_view_is_active(channels[i], now) {
        (active_before(channels, now, i) + 1) as u8
    } else {
        0
    }
}

/// Everything the monitor displays, as the contracts see it.
pub struct HistoriesView {
    pub lanes: Seq<Seq<CcValueTime>>,
    pub channels: Seq<ChannelView>,
    pub channel_id_count: u8,
}

/// The display after one received value.
pub open spec fn spec_record(h: HistoriesView, value: CcValueTime) -> HistoriesView {
    HistoriesView {
        lanes: spec_add_entry(h.lanes, value),
        channels: h.channels.update(
            value.channel as int,
            spec_process(h.channels[value.channel as int], value),
        ),
        channel_id_count: h.channel_id_count,
    }
}

/// The display after each of `values` in turn.
pub open spec fn spec_record_all(h: HistoriesView, values: Seq<CcValueTime>) -> HistoriesView
    decreases values.len(),
{
    if values.len() == 0 {
        h
    } else {
        spec_record(spec_record_all(h, values.drop_last()), values.last())
    }
}

/// The display after channel ids are given out at `now`.
pub open spec fn spec_assign_ids(h: HistoriesView, now: u64) -> HistoriesView {
    HistoriesView {
        lanes: h.lanes,
        channels: Seq::new(
            h.channels.len(),
            |i: int|
                ChannelView {
                    last_active: h.channels[i].last_active,
                    id: spec_channel_id(h.channels, now, i),
                    notes: h.channels[i].notes,
                },
        ),
        channel_id_count: active_before(h.channels, now, h.channels.len() as int) as u8,
    }
}

/// A value the display can take: its channel exists and the channel can
/// take it.
pub open spec fn can_record(value: CcValueTime) -> bool {
    &&& (value.channel as usize) < CHANNEL_COUNT
    &&& can_process(value)
}

/// Whether the display can take `value`: its channel exists, its lane
/// exists, and a note message names a note.
pub fn is_recordable(value: &CcValueTime) -> (r: bool)
    ensures
        r == can_record(*value),
{
    (value.channel as usize) < CHANNEL_COUNT && (value.cc_num as usize) < CC_MAX && (!(value.cc_num
        == 131 || value.cc_num == 133) || value.get_value_as_127_floor() < 128)
}

/// The number of lanes that hold a value.
pub open spec fn count_nonempty(lanes: Seq<Seq<CcValueTime>>) -> nat
    decreases lanes.len(),
{
    if lanes.len() == 0 {
        0
    } else {
        count_nonempty(lanes.drop_last()) + if lanes.last().len() > 0 {
            1nat
        } else {
            0nat
        }
    }
}

/// The histories of all lanes and the state of all channels.
#[derive(Debug)]
pub struct Histories {
    pub history_per_cc: Vec<CcValueTimeHistory>,
    pub info_per_channel: [ChannelInfo; 16],
    pub channel_id_count: u8,
}

impl View for Histories {
    type V = HistoriesView;

    open spec fn view(&self) -> HistoriesView {
        HistoriesView {
            lanes: lanes_view(self.history_per_cc@),
            channels: self.info_per_channel@.map_values(|c: ChannelInfo| c@),
            channel_id_count: self.channel_id_count,
        }
    }
}

impl Histories {
    /// One lane per controller, no lane longer than `MAX_HISTORY`, and every
    /// channel's note count right.
    pub open spec fn wf(&self) -> bool {
        &&& self.history_per_cc@.len() == CC_MAX
        &&& forall|i: int|
            0 <= i < CC_MAX ==> #[trigger] self.history_per_cc@[i].history@.len() <= MAX_HISTORY
        &&& forall|i: int| 0 <= i < CHANNEL_COUNT ==> #[trigger] self.info_per_channel[i].wf()
    }

    /// Empty lanes for every controller, and every channel created at `now`
    /// with no sounding note.
    pub fn new(now: u64) -> (r: Self)
        ensures
            r.wf(),
            r@.lanes == Seq::new(CC_MAX as nat, |i: int| Seq::<CcValueTime>::empty()),
            r@.channels == Seq::new(CHANNEL_COUNT as nat, |i: int| spec_new_channel(now)),
            r@.channel_id_count == 0,
    {
        let mut history_per_cc: Vec<CcValueTimeHistory> = Vec::with_capacity(CC_MAX);
        let mut i: usize = 0;
        while i < CC_MAX
            invariant
                i <= CC_MAX,
                history_per_cc@.len() == i,
                forall|j: int| 0 <= j < i ==> #[trigger] history_per_cc@[j].history@.len() == 0,
            decreases CC_MAX - i,
        {
            history_per_cc.push(
                CcValueTimeHistory { history: std::collections::VecDeque::with_capacity(MAX_HISTORY) },
            );
            i += 1;
        }
        let info_per_channel = [
            ChannelInfo::new(now),
            ChannelInfo::new(now),
            ChannelInfo::new(now),
            ChannelInfo::new(now),
            ChannelInfo::new(now),
            ChannelInfo::new(now),
            ChannelInfo::new(now),
            ChannelInfo::new(now),
            ChannelInfo::new(now),
            ChannelInfo::new(now),
            ChannelInfo::new(now),
            ChannelInfo::new(now),
            ChannelInfo::new(now),
            ChannelInfo::new(now),
            ChannelInfo::new(now),
            ChannelInfo::new(now),
        ];
        let r = Histories { history_per_cc, info_per_channel, channel_id_count: 0 };
        assert forall|j: int| 0 <= j < CC_MAX implies #[trigger] r@.lanes[j] =~= Seq::<
            CcValueTime,
        >::empty() by {
            assert(r.history_per_cc@[j].history@.len() == 0);
        }
        assert(r@.lanes =~= Seq::new(CC_MAX as nat, |i: int| Seq::<CcValueTime>::empty()));
        assert(r@.channels =~= Seq::new(CHANNEL_COUNT as nat, |i: int| spec_new_channel(now)));
        r
    }

    /// Takes one received value into account: its channel's notes and time,
    /// and its lane's history.
    pub fn record(&mut self, value: CcValueTime)
        requires
            old(self).wf(),
            can_record(value),
        ensures
            final(self).wf(),
            final(self)@ == spec_record(old(self)@, value),
    {
        let ghost before = self@;
        let ch = value.channel as usize;
        let mut info = self.info_per_channel[ch];
        info.process(&value);
        self.info_per_channel[ch] = info;
        add_entry(&mut self.history_per_cc, value);
        proof {
            assert(self@.channels =~= before.channels.update(
                ch as int,
                spec_process(before.channels[ch as int], value),
            ));
            assert forall|i: int| 0 <= i < CC_MAX implies #[trigger] self.history_per_cc@[i].history@.len()
                <= MAX_HISTORY by {
                assert(self.history_per_cc@[i].history@ == lanes_view(self.history_per_cc@)[i]);
                assert(old(self).history_per_cc@[i].history@ == before.lanes[i]);
            }
            assert forall|i: int| 0 <= i < CHANNEL_COUNT implies #[trigger] self.info_per_channel[i].wf() by {
                if i != ch {
                    assert(self.info_per_channel@[i] == old(self).info_per_channel@[i]);
                }
            }
        }
    }

    /// Gives out display ids at `now`: active channels are numbered from 1 in
    /// channel order, inactive ones get 0, and the count of active channels
    /// is kept.
    pub fn assign_channel_ids(&mut self, now: u64)
        requires
            old(self).wf(),
        ensures
            final(self).wf(),
            final(self)@ == spec_assign_ids(old(self)@, now),
    {
        let ghost before = self@.channels;
        let mut id: u8 = 0;
        let mut i: usize = 0;
        while i < CHANNEL_COUNT
            invariant
                i <= CHANNEL_COUNT,
                before.len() == CHANNEL_COUNT,
                before == old(self)@.channels,
                id == active_before(before, now, i as int),
                self.history_per_cc == old(self).history_per_cc,
                self.channel_id_count == old(self).channel_id_count,
                forall|j: int| 0 <= j < CHANNEL_COUNT ==> #[trigger] self.info_per_channel[j].wf(),
                forall|j: int|
                    0 <= j < i ==> #[trigger] self.info_per_channel[j]@ == (ChannelView {
                        last_active: before[j].last_active,
                        id: spec_channel_id(before, now, j),
                        notes: before[j].notes,
                    }),
                forall|j: int|
                    i <= j < CHANNEL_COUNT ==> #[trigger] self.info_per_channel[j]
                        == old(self).info_per_channel[j],
            decreases CHANNEL_COUNT - i,
        {
            proof {
                lemma_active_before_le(before, now, i as int);
            }
            let mut info = self.info_per_channel[i];
            assert(info@ == before[i as int]);
            if !info.is_active(now) {
                info.id = 0;
            } else {
                id += 1;
                info.id = id;
            }
            self.info_per_channel[i] = info;
            i += 1;
        }
        self.channel_id_count = id;
        proof {
            let target = spec_assign_ids(old(self)@, now);
            assert(self@.channels =~= target.channels);
            assert(self@.lanes == target.lanes);
        }
    }

    /// Takes the values received since the last update into account, in the
    /// order received, then gives out display ids at `now`.
    pub fn update_from_state(&mut self, received: &Vec<CcValueTime>, now: u64)
        requires
            old(self).wf(),
            forall|k: int| 0 <= k < received@.len() ==> can_record(#[trigger] received@[k]),
        ensures
            final(self).wf(),
            final(self)@ == spec_assign_ids(spec_record_all(old(self)@, received@), now),
    {
        let n = received.len();
        let mut k: usize = 0;
        while k < n
            invariant
                n == received@.len(),
                k <= n,
                self.wf(),
                forall|j: int| 0 <= j < received@.len() ==> can_record(#[trigger] received@[j]),
                self@ == spec_record_all(old(self)@, received@.take(k as int)),
            decreases n - k,
        {
            self.record(received[k]);
            assert(received@.take(k as int + 1).drop_last() =~= received@.take(k as int));
            k += 1;
        }
        assert(received@.take(n as int) =~= received@);
        self.assign_channel_ids(now);
    }

    /// The number of lanes that hold at least one value.
    pub fn count_of_active_ccs(&self) -> (r: usize)
        ensures
            r == count_nonempty(self@.lanes),
    {
        let n = self.history_per_cc.len();
        let mut r: usize = 0;
        let mut i: usize = 0;
        while i < n
            invariant
                n == self.history_per_cc@.len(),
                i <= n,
                r == count_nonempty(self@.lanes.take(i as int)),
                r <= i,
            decreases n - i,
        {
            proof {
                assert(self@.lanes.take(i as int + 1).drop_last() =~= self@.lanes.take(i as int));
                assert(self@.lanes[i as int] == self.history_per_cc@[i as int].history@);
            }
            if self.history_per_cc[i].history.len() != 0 {
                r += 1;
            }
            i += 1;
        }
        assert(self@.lanes.take(n as int) =~= self@.lanes);
        r
    }
}

proof fn lemma_active_before_monotone(channels: Seq<ChannelView>, now: u64, i: int, j: int)
    requires
        0 <= i < j,
    ensures
        active_before(channels, now, i) + (if spec_view_is_active(channels[i], now) {
            1int
        } else {
            0int
        }) <= active_before(channels, now, j),
    decreases j,
{
    if j > i + 1 {
        lemma_active_before_monotone(channels, now, i, j - 1);
    }
}

proof fn lemma_active_before_hits(channels: Seq<ChannelView>, now: u64, k: int, m: int)
    requires
        0 <= m < active_before(channels, now, k),
    ensures
        exists|i: int|
            0 <= i < k && spec_view_is_active(channels[i], now) && #[trigger] active_before(
                channels,
                now,
                i,
            ) == m,
    decreases k,
{
    if m < active_before(channels, now, k - 1) {
        lemma_active_before_hits(channels, now, k - 1, m);
    } else {
        assert(spec_view_is_active(channels[k - 1], now));
        assert(active_before(channels, now, k - 1) == m);
    }
}

/// Some channel has display id `k`.
pub open spec fn id_is_taken(channels: Seq<ChannelView>, k: int) -> bool {
    exists|i: int| 0 <= i < channels.len() && #[trigger] channels[i].id == k
}

/// Display ids number the active channels: each active channel gets an id
/// from 1 to the count of active channels, in channel order and all
/// different, every id in that range is taken, and inactive channels get 0.
pub proof fn lemma_channel_ids_number_active(h: HistoriesView, now: u64)
    requires
        h.channels.len() == CHANNEL_COUNT,
    ensures
        ({
            let a = spec_assign_ids(h, now);
            &&& a.channels.len() == CHANNEL_COUNT
            &&& a.channel_id_count == active_before(h.channels, now, CHANNEL_COUNT as int)
            &&& forall|i: int|
                0 <= i < CHANNEL_COUNT ==> (spec_view_is_active(h.channels[i], now) <==> 1
                    <= #[trigger] a.channels[i].id <= a.channel_id_count)
            &&& forall|i: int|
                0 <= i < CHANNEL_COUNT && !spec_view_is_active(h.channels[i], now)
                    ==> #[trigger] a.channels[i].id == 0
            &&& forall|i: int, j: int|
                0 <= i < j < CHANNEL_COUNT && spec_view_is_active(h.channels[i], now)
                    && spec_view_is_active(h.channels[j], now) ==> #[trigger] a.channels[i].id
                    < #[trigger] a.channels[j].id
            &&& forall|k: int|
                1 <= k <= a.channel_id_count ==> #[trigger] id_is_taken(a.channels, k)
        }),
{
    let a = spec_assign_ids(h, now);
    let ch = h.channels;
    let n = CHANNEL_COUNT as int;
    lemma_active_before_le(ch, now, n);
    assert forall|i: int| 0 <= i < n implies (spec_view_is_active(ch[i], now) <==> 1
        <= #[trigger] a.channels[i].id <= a.channel_id_count) by {
        lemma_active_before_le(ch, now, i);
        lemma_active_before_monotone(ch, now, i, n);
    }
    assert forall|i: int, j: int|
        0 <= i < j < n && spec_view_is_active(ch[i], now) && spec_view_is_active(ch[j], now)
        implies #[trigger] a.channels[i].id < #[trigger] a.channels[j].id by {
        lemma_active_before_le(ch, now, i);
        lemma_active_before_le(ch, now, j);
        lemma_active_before_monotone(ch, now, i, j);
    }
    assert forall|k: int| 1 <= k <= a.channel_id_count implies #[trigger] id_is_taken(a.channels, k) by {
        lemma_active_before_hits(ch, now, n, k - 1);
        let i = choose|i: int|
            0 <= i < n && spec_view_is_active(ch[i], now) && #[trigger] active_before(ch, now, i)
                == k - 1;
        lemma_active_before_le(ch, now, i);
        assert(a.channels[i].id == k);
    }
}

/// A column of the display: the values of one lane that came from one
/// channel.
#[derive(Copy, Clone, Debug, PartialEq, Eq, Structural)]
pub struct Lane {
    pub channel: u8,
    pub cc_num: u8,
}

/// The lanes of note numbers and velocities, which the display leaves out.
pub open spec fn is_note_lane(cc_num: int) -> bool {
    131 <= cc_num <= 134
}

/// Whether the display shows lane `cc_num` for `channel`: it is not a note
/// lane and holds a value from that channel.
pub open spec fn is_shown(lanes: Seq<Seq<CcValueTime>>, channel: int, cc_num: int) -> bool {
    &&& !is_note_lane(cc_num)
    &&& exists|i: int| 0 <= i < lanes[cc_num].len() && #[trigger] lanes[cc_num][i].channel == channel
}

/// The columns shown before position (`channel`, `cc_num`), channel by
/// channel and lane by lane within a channel.
pub open spec fn columns_before(lanes: Seq<Seq<CcValueTime>>, channel: nat, cc_num: nat) -> Seq<Lane>
    decreases channel, cc_num,
{
    if cc_num == 0 {
        if channel == 0 {
            Seq::empty()
        } else {
            columns_before(lanes, (channel - 1) as nat, lanes.len())
        }
    } else {
        let prev = columns_before(lanes, channel, (cc_num - 1) as nat);
        if cc_num <= lanes.len() && is_shown(lanes, channel as int, cc_num - 1) {
            prev.push(Lane { channel: channel as u8, cc_num: (cc_num - 1) as u8 })
        } else {
            prev
        }
    }
}

/// All columns the display shows, left to right.
pub open spec fn spec_display_lanes(lanes: Seq<Seq<CcValueTime>>) -> Seq<Lane> {
    columns_before(lanes, CHANNEL_COUNT as nat, 0)
}

impl Histories {
    /// The columns to draw, left to right: for each channel in turn, each
    /// lane other than the note lanes that holds a value from that channel.
    pub fn display_lanes(&self) -> (r: Vec<Lane>)
        requires
            self.wf(),
        ensures
            r@ == spec_display_lanes(self@.lanes),
    {
        let ghost lanes = self@.lanes;
        let n = self.history_per_cc.len();
        let mut r: Vec<Lane> = Vec::new();
        let mut channel: u8 = 0;
        while channel < 16
            invariant
                n == CC_MAX,
                lanes == self@.lanes,
                lanes.len() == n,
                self.wf(),
                channel <= 16,
                r@ == columns_before(lanes, channel as nat, 0),
            decreases 16 - channel,
        {
            let mut cc_num: usize = 0;
            while cc_num < n
                invariant
                    n == CC_MAX,
                    lanes == self@.lanes,
                    lanes.len() == n,
                    self.wf(),
                    channel < 16,
                    cc_num <= n,
                    r@ == columns_before(lanes, channel as nat, cc_num as nat),
                decreases n - cc_num,
            {
                let note_lane = match Cc::from_index(cc_num as u8) {
                    Cc::NoteOn => true,
                    Cc::NoteOff => true,
                    Cc::VelocityOn => true,
                    Cc::VelocityOff => true,
                    _ => false,
                };
                assert(lanes[cc_num as int] == self.history_per_cc@[cc_num as int].history@);
                if !note_lane && !self.history_per_cc[cc_num].is_empty_for_channel(channel) {
                    r.push(Lane { channel, cc_num: cc_num as u8 });
                }
                cc_num += 1;
            }
            channel += 1;
        }
        r
    }
}

proof fn lemma_columns_before_shown(lanes: Seq<Seq<CcValueTime>>, channel: nat, cc_num: nat)
    requires
        channel < CHANNEL_COUNT || (channel == CHANNEL_COUNT && cc_num == 0),
        lanes.len() <= 256,
    ensures
        forall|k: int|
            0 <= k < columns_before(lanes, channel, cc_num).len() ==> {
                let col = #[trigger] columns_before(lanes, channel, cc_num)[k];
                &&& col.channel < CHANNEL_COUNT
                &&& (col.cc_num as int) < lanes.len()
                &&& is_shown(lanes, col.channel as int, col.cc_num as int)
            },
    decreases channel, cc_num,
{
    if cc_num == 0 {
        if channel > 0 {
            lemma_columns_before_shown(lanes, (channel - 1) as nat, lanes.len());
            assert(columns_before(lanes, channel, cc_num) == columns_before(
                lanes,
                (channel - 1) as nat,
                lanes.len(),
            ));
        }
    } else {
        lemma_columns_before_shown(lanes, channel, (cc_num - 1) as nat);
        let prev = columns_before(lanes, channel, (cc_num - 1) as nat);
        let cur = columns_before(lanes, channel, cc_num);
        assert forall|k: int| 0 <= k < cur.len() implies {
            let col = #[trigger] cur[k];
            &&& col.channel < CHANNEL_COUNT
            &&& (col.cc_num as int) < lanes.len()
            &&& is_shown(lanes, col.channel as int, col.cc_num as int)
        } by {
            if k < prev.len() {
                assert(cur[k] == prev[k]);
            } else {
                assert(cur[k] == Lane { channel: channel as u8, cc_num: (cc_num - 1) as u8 });
            }
        }
    }
}

/// Every column the display shows is a lane other than the note lanes, of
/// one of the sixteen channels, that holds at least one value from that
/// channel, so its most recent value exists.
pub proof fn lemma_displayed_columns_hold_values(lanes: Seq<Seq<CcValueTime>>, k: int)
    requires
        lanes.len() == CC_MAX,
        0 <= k < spec_display_lanes(lanes).len(),
    ensures
        ({
            let col = spec_display_lanes(lanes)[k];
            &&& col.channel < CHANNEL_COUNT
            &&& (col.cc_num as int) < CC_MAX
            &&& !is_note_lane(col.cc_num as int)
            &&& lanes[col.cc_num as int].len() > 0
            &&& is_shown(lanes, col.channel as int, col.cc_num as int)
        }),
{
    lemma_columns_before_shown(lanes, CHANNEL_COUNT as nat, 0);
    let col = spec_display_lanes(lanes)[k];
    let i = choose|i: int|
        0 <= i < lanes[col.cc_num as int].len() && #[trigger] lanes[col.cc_num as int][i].channel
            == col.channel as int;
}

/// A batch is recorded message by message, in the order received: recording
/// `a` followed by `b` is recording `a` and then recording `b`, and recording
/// a single message is `spec_record` of it.
pub proof fn lemma_record_all_in_order(h: HistoriesView, a: Seq<CcValueTime>, b: Seq<CcValueTime>)
    ensures
        spec_record_all(h, a + b) == spec_record_all(spec_record_all(h, a), b),
        forall|v: CcValueTime| spec_record_all(h, seq![v]) == #[trigger] spec_record(h, v),
    decreases b.len(),
{
    assert forall|v: CcValueTime| spec_record_all(h, seq![v]) == #[trigger] spec_record(h, v) by {
        assert(seq![v].drop_last() =~= Seq::<CcValueTime>::empty());
        assert(spec_record_all(h, seq![v].drop_last()) == h);
        assert(seq![v].last() == v);
    }
    if b.len() == 0 {
        assert(a + b =~= a);
    } else {
        lemma_record_all_in_order(h, a, b.drop_last());
        assert((a + b).drop_last() =~= a + b.drop_last());
        assert((a + b).last() == b.last());
    }
}

/// What a message does to its channel: the channel was last heard from at the
/// later of the two times; its id is kept; the controllers 123..=127 (All
/// Notes Off, Omni Off, Omni On, Mono, Poly) silence every note; a message on
/// the `NoteOn` lane makes its note sound and one on the `NoteOff` lane
/// silences it; any other message leaves the notes as they were.
pub proof fn lemma_process_effect(c: ChannelView, v: CcValueTime)
    requires
        c.notes.len() == 128,
        can_process(v),
    ensures
        ({
            let a = spec_process(c, v);
            let note = spec_value_as_127_floor(v.value) as int;
            &&& a.last_active == if c.last_active < v.instant {
                v.instant
            } else {
                c.last_active
            }
            &&& a.id == c.id
            &&& a.notes.len() == 128
            &&& 123 <= v.cc_num <= 127 ==> forall|i: int| 0 <= i < 128 ==> !#[trigger] a.notes[i]
            &&& v.cc_num == spec_to_index(Cc::NoteOn) ==> a.notes == c.notes.update(note, true)
            &&& v.cc_num == spec_to_index(Cc::NoteOff) ==> a.notes == c.notes.update(note, false)
            &&& !(123 <= v.cc_num <= 127) && v.cc_num != spec_to_index(Cc::NoteOn) && v.cc_num
                != spec_to_index(Cc::NoteOff) ==> a.notes == c.notes
        }),
{
}

/// The note lanes that the display leaves out are exactly the lanes of
/// `NoteOn`, `VelocityOn`, `NoteOff` and `VelocityOff`.
pub proof fn lemma_note_lanes(cc_num: u8)
    requires
        (cc_num as usize) < CC_MAX,
    ensures
        is_note_lane(cc_num as int) <==> (spec_from_index(cc_num) == Cc::NoteOn || spec_from_index(
            cc_num,
        ) == Cc::VelocityOn || spec_from_index(cc_num) == Cc::NoteOff || spec_from_index(cc_num)
            == Cc::VelocityOff),
{
}

proof fn lemma_columns_before_complete(
    lanes: Seq<Seq<CcValueTime>>,
    channel: nat,
    cc_num: nat,
    ch: nat,
    cc: nat,
)
    requires
        channel < CHANNEL_COUNT || (channel == CHANNEL_COUNT && cc_num == 0),
        lanes.len() <= 256,
        (ch < channel && cc < lanes.len()) || (ch == channel && cc < cc_num && cc < lanes.len()),
        is_shown(lanes, ch as int, cc as int),
    ensures
        columns_before(lanes, channel, cc_num).contains(Lane { channel: ch as u8, cc_num: cc as u8 }),
    decreases channel, cc_num,
{
    let target = Lane { channel: ch as u8, cc_num: cc as u8 };
    if cc_num == 0 {
        lemma_columns_before_complete(lanes, (channel - 1) as nat, lanes.len(), ch, cc);
    } else {
        let prev = columns_before(lanes, channel, (cc_num - 1) as nat);
        let cur = columns_before(lanes, channel, cc_num);
        if ch == channel && cc == cc_num - 1 {
            assert(cur == prev.push(target));
            assert(cur[prev.len() as int] == target);
        } else {
            lemma_columns_before_complete(lanes, channel, (cc_num - 1) as nat, ch, cc);
            let k = choose|k: int| 0 <= k < prev.len() && prev[k] == target;
            assert(cur[k] == target);
        }
    }
}

/// The display shows column (`channel`, `cc_num`) exactly when the channel
/// is one of the sixteen, the lane exists, it is not the lane of `NoteOn`,
/// `VelocityOn`, `NoteOff` or `VelocityOff`, and it holds a value from that
/// channel.
pub proof fn lemma_display_lanes_exact(lanes: Seq<Seq<CcValueTime>>, channel: u8, cc_num: u8)
    requires
        lanes.len() == CC_MAX,
    ensures
        spec_display_lanes(lanes).contains(Lane { channel, cc_num }) <==> {
            &&& (channel as usize) < CHANNEL_COUNT
            &&& (cc_num as usize) < CC_MAX
            &&& spec_from_index(cc_num) != Cc::NoteOn
            &&& spec_from_index(cc_num) != Cc::VelocityOn
            &&& spec_from_index(cc_num) != Cc::NoteOff
            &&& spec_from_index(cc_num) != Cc::VelocityOff
            &&& exists|i: int|
                0 <= i < lanes[cc_num as int].len() && #[trigger] lanes[cc_num as int][i].channel
                    == channel
        },
{
    let cols = spec_display_lanes(lanes);
    let target = Lane { channel, cc_num };
    if cols.contains(target) {
        let k = choose|k: int| 0 <= k < cols.len() && cols[k] == target;
        lemma_columns_before_shown(lanes, CHANNEL_COUNT as nat, 0);
        assert(cols[k] == target);
    }
    if (channel as usize) < CHANNEL_COUNT && (cc_num as usize) < CC_MAX && spec_from_index(cc_num)
        != Cc::NoteOn && spec_from_index(cc_num) != Cc::VelocityOn && spec_from_index(cc_num)
        != Cc::NoteOff && spec_from_index(cc_num) != Cc::VelocityOff && exists|i: int|
        0 <= i < lanes[cc_num as int].len() && #[trigger] lanes[cc_num as int][i].channel
            == channel {
        lemma_note_lanes(cc_num);
        assert(is_shown(lanes, channel as int, cc_num as int));
        lemma_columns_before_complete(
            lanes,
            CHANNEL_COUNT as nat,
            0,
            channel as nat,
            cc_num as nat,
        );
    }
}

/// Rounding to a data byte picks the nearest byte (there are no ties: a byte
/// step is an odd number of value steps), saturating at 255; the truncated
/// scaling picks the byte step the value lies in.
pub proof fn lemma_value_scaling(value: u16)
    ensures
        spec_value_as_u8(value) < 255 ==> 129 * spec_value_as_u8(value) - 64 <= value <= 129
            * spec_value_as_u8(value) + 64,
        spec_value_as_u8(value) == 255 ==> value >= 129 * 255 - 64,
        129 * spec_value_as_127_floor(value) <= value < 129 * spec_value_as_127_floor(value) + 129,
{
}

/// The count of lanes holding a value is at most the number of lanes, is 0
/// exactly when every lane is empty, and is the number of lanes exactly when
/// none is.
pub proof fn lemma_count_nonempty(lanes: Seq<Seq<CcValueTime>>)
    ensures
        count_nonempty(lanes) <= lanes.len(),
        count_nonempty(lanes) == 0 <==> forall|i: int| 0 <= i < lanes.len() ==> #[trigger] lanes[i].len()
            == 0,
        count_nonempty(lanes) == lanes.len() <==> forall|i: int|
            0 <= i < lanes.len() ==> #[trigger] lanes[i].len() > 0,
    decreases lanes.len(),
{
    if lanes.len() > 0 {
        let p = lanes.drop_last();
        lemma_count_nonempty(p);
        assert forall|i: int| 0 <= i < p.len() implies #[trigger] p[i] == lanes[i] by {}
        if count_nonempty(lanes) == 0 {
            assert forall|i: int| 0 <= i < lanes.len() implies #[trigger] lanes[i].len() == 0 by {
                if i < p.len() {
                    assert(p[i] == lanes[i]);
                }
            }
        }
        if count_nonempty(lanes) == lanes.len() {
            assert forall|i: int| 0 <= i < lanes.len() implies #[trigger] lanes[i].len() > 0 by {
                if i < p.len() {
                    assert(p[i] == lanes[i]);
                }
            }
        }
        if forall|i: int| 0 <= i < lanes.len() ==> #[trigger] lanes[i].len() == 0 {
            assert(lanes[lanes.len() - 1].len() == 0);
            assert forall|i: int| 0 <= i < p.len() implies #[trigger] p[i].len() == 0 by {
                assert(p[i] == lanes[i]);
            }
        }
        if forall|i: int| 0 <= i < lanes.len() ==> #[trigger] lanes[i].len() > 0 {
            assert(lanes[lanes.len() - 1].len() > 0);
            assert forall|i: int| 0 <= i < p.len() implies #[trigger] p[i].len() > 0 by {
                assert(p[i] == lanes[i]);
            }
        }
    }
}

} // verus!
