use vstd::prelude::*;

verus! {

/// Number of controller lanes the monitor keeps: the 128 MIDI continuous
/// controllers followed by the monitor's own additions.
pub const CC_MAX: usize = 135;

/// A controller lane of the monitor.
///
/// `Controller(c)` is a MIDI continuous controller (0..=127); the other
/// variants are events that the monitor shows as if they were controllers.
#[derive(Copy, Clone, Debug, PartialEq, Eq, Structural)]
pub enum Cc {
    Controller(u8),
    NoteOn,
    VelocityOn,
    ChannelAftertouch,
    PitchBend,
    NoteAftertouch,
    NoteOff,
    VelocityOff,
}

/// The lane index of a controller: a controller number keeps its low seven
/// bits; the additions follow at 128..=134.
pub open spec fn spec_to_index(c: Cc) -> u8 {
    match c {
        Cc::Controller(n) => (n % 128) as u8,
        Cc::NoteAftertouch => 128,
        Cc::PitchBend => 129,
        Cc::ChannelAftertouch => 130,
        Cc::NoteOn => 131,
        Cc::VelocityOn => 132,
        Cc::NoteOff => 133,
        Cc::VelocityOff => 134,
    }
}

/// The controller of a lane index below `CC_MAX`.
pub open spec fn spec_from_index(i: u8) -> Cc {
    if i < 128 {
        Cc::Controller(i)
    } else if i == 128 {
        Cc::NoteAftertouch
    } else if i == 129 {
        Cc::PitchBend
    } else if i == 130 {
        Cc::ChannelAftertouch
    } else if i == 131 {
        Cc::NoteOn
    } else if i == 132 {
        Cc::VelocityOn
    } else if i == 133 {
        Cc::NoteOff
    } else {
        Cc::VelocityOff
    }
}

/// A controller is canonical when, as a MIDI controller, its number is a
/// seven-bit value; every lane index names exactly one canonical controller.
pub open spec fn is_canonical(c: Cc) -> bool {
    match c {
        Cc::Controller(n) => n < 128,
        _ => true,
    }
}

impl Cc {
    /// The lane index of this controller.
    pub fn to_index(self) -> (r: u8)
        ensures
            r == spec_to_index(self),
            (r as usize) < CC_MAX,
    {
        match self {
            Cc::Controller(c) => {
                let r = c & 0x7f;
                assert(c & 0x7f == c % 128) by (bit_vector);
                r
            },
            Cc::NoteAftertouch => 128,
            Cc::PitchBend => 129,
            Cc::ChannelAftertouch => 130,
            Cc::NoteOn => 131,
            Cc::VelocityOn => 132,
            Cc::NoteOff => 133,
            Cc::VelocityOff => 134,
        }
    }

    /// The controller shown in lane `i`; there is none at or above `CC_MAX`.
    pub fn from_index(i: u8) -> (r: Self)
        requires
            (i as usize) < CC_MAX,
        ensures
            r == spec_from_index(i),
            is_canonical(r),
    {
        match i {
            0..=127 => Cc::Controller(i),
            128 => Cc::NoteAftertouch,
            129 => Cc::PitchBend,
            130 => Cc::ChannelAftertouch,
            131 => Cc::NoteOn,
            132 => Cc::VelocityOn,
            133 => Cc::NoteOff,
            _ => Cc::VelocityOff,
        }
    }
}

/// The short display name of lane `cc_num`, where the lane has one.
pub open spec fn spec_cc_name(cc_num: usize) -> Option<&'static str> {
    match cc_num {
        0 => Some("BS"),  // Bank Select (MSB) (see CC32)
        1 => Some("mod"),  // Mod Wheel (MSB) (see CC33)
        2 => Some("br"),  // Breath Controller (MSB) (see CC34)
        5 => Some("tim"),  // Portomento Time (MSB) (see CC37)
        6 => Some("DEM"),  // Data Entry (MSB) (see CC38)
        7 => Some("vol"),  // Volume (MSB) (see CC39)
        8 => Some("bal"),  // Balance (MSB) (see CC40)
        10 => Some("pan"),  // Pan (MBB) (see CC42)
        11 => Some("exp"),  // Expression Pedal (MSB) (see CC43)
        32 => Some("BSL"),  // Bank Select LSB (see CC0)
        38 => Some("DEL"),  // Data Entry LSB (see CC6)
        64 => Some("sus"),  // Sustain Pedal (on/off)
        65 => Some("prt"),  // Portamento (on/off)
        66 => Some("sos"),  // Sostenuto (on/off)
        67 => Some("sft"),  // Soft Pedal (on/off)
        68 => Some("leg"),  // Legato (on/off)
        69 => Some("hld"),  // Hold Pedal 2
        96 => Some("+1"),  // Data Increment (+1) for SysEx, NRPN, RPN
        97 => Some("-1"),  // Data Decrement (-1) for SysEx, NRPN, RPN
        98 => Some("nrL"),  // NRPN LSB (Selects the NRPN variable for CC6/CC38, CC96, CC97)
        99 => Some("nrM"),  // NRPN MSB
        100 => Some("rpL"),  // RPN LSB
        101 => Some("rpM"),  // RPN MSB
        120 => Some("mut"),  // Channel Mute
        121 => Some("RAC"),  // Reset All Controllers
        122 => Some("LOC"),  // Local Control (on/off) (0=Off, 127=On)
        123 => Some("AN"),  // All Notes (value = 0)
        124 => Some("OMF"),  // OMNI Mode OFF (value = 0; includes All Notes Off)
        125 => Some("OMN"),  // OMNI Mode ON (value = 0; includes All Notes Off)
        128 => Some("pat"),  // Polyphonic Aftertouch
        129 => Some("pit"),  // PitchBend (float)
        130 => Some("cat"),  // Channel Aftertouch
        131 => Some("on"),  // Note On
        132 => Some("vel"),  // Velocity (Note On)
        133 => Some("off"),  // Note Off
        134 => Some("ov"),  // Off Velocity (Note Off)
        _ => None,
    }
}

/// The short display name of lane `cc_num`, if it has one.
pub fn cc_name(cc_num: usize) -> (r: Option<&'static str>)
    ensures
        r == spec_cc_name(cc_num),
{
    match cc_num {
        0 => Some("BS"),
        1 => Some("mod"),
        2 => Some("br"),
        5 => Some("tim"),
        6 => Some("DEM"),
        7 => Some("vol"),
        8 => Some("bal"),
        10 => Some("pan"),
        11 => Some("exp"),
        32 => Some("BSL"),
        38 => Some("DEL"),
        64 => Some("sus"),
        65 => Some("prt"),
        66 => Some("sos"),
        67 => Some("sft"),
        68 => Some("leg"),
        69 => Some("hld"),
        96 => Some("+1"),
        97 => Some("-1"),
        98 => Some("nrL"),
        99 => Some("nrM"),
        100 => Some("rpL"),
        101 => Some("rpM"),
        120 => Some("mut"),
        121 => Some("RAC"),
        122 => Some("LOC"),
        123 => Some("AN"),
        124 => Some("OMF"),
        125 => Some("OMN"),
        128 => Some("pat"),
        129 => Some("pit"),
        130 => Some("cat"),
        131 => Some("on"),
        132 => Some("vel"),
        133 => Some("off"),
        134 => Some("ov"),
        _ => None,
    }
}

/// Controllers whose message also turns every sounding note of the channel
/// off: All Notes Off, Omni Off, Omni On, Mono and Poly (123..=127).
pub open spec fn spec_implies_all_notes_off(cc_num: u8) -> bool {
    123 <= cc_num <= 127
}

/// Controller numbers with a meaning beyond their value.
pub struct SpecialControllers;

impl SpecialControllers {
    /// Whether a message on controller `cc_num` turns all notes of its
    /// channel off.
    pub fn does_cc_num_imply_all_notes_off(cc_num: u8) -> (r: bool)
        ensures
            r == spec_implies_all_notes_off(cc_num),
    {
        123 <= cc_num && cc_num <= 127
    }
}

/// The lane names, lane by lane: the short names of the MIDI controllers
/// that have one (bank select, modulation, breath, portamento time, data
/// entry, volume, balance, pan, expression, the pedals and switches
/// 64..=69, data increment and decrement, the NRPN and RPN selectors, and
/// the channel mode messages 120..=125), and the monitor's additions; every
/// other lane, and any index past the last lane, has none.
pub proof fn lemma_cc_names(i: usize)
    ensures
        spec_cc_name(0) == Some("BS"),
        spec_cc_name(1) == Some("mod"),
        spec_cc_name(2) == Some("br"),
        spec_cc_name(3) is None,
        spec_cc_name(4) is None,
        spec_cc_name(5) == Some("tim"),
        spec_cc_name(6) == Some("DEM"),
        spec_cc_name(7) == Some("vol"),
        spec_cc_name(8) == Some("bal"),
        spec_cc_name(9) is None,
        spec_cc_name(10) == Some("pan"),
        spec_cc_name(11) == Some("exp"),
        spec_cc_name(12) is None,
        spec_cc_name(13) is None,
        spec_cc_name(14) is None,
        spec_cc_name(15) is None,
        spec_cc_name(16) is None,
        spec_cc_name(17) is None,
        spec_cc_name(18) is None,
        spec_cc_name(19) is None,
        spec_cc_name(20) is None,
        spec_cc_name(21) is None,
        spec_cc_name(22) is None,
        spec_cc_name(23) is None,
        spec_cc_name(24) is None,
        spec_cc_name(25) is None,
        spec_cc_name(26) is None,
        spec_cc_name(27) is None,
        spec_cc_name(28) is None,
        spec_cc_name(29) is None,
        spec_cc_name(30) is None,
        spec_cc_name(31) is None,
        spec_cc_name(32) == Some("BSL"),
        spec_cc_name(33) is None,
        spec_cc_name(34) is None,
        spec_cc_name(35) is None,
        spec_cc_name(36) is None,
        spec_cc_name(37) is None,
        spec_cc_name(38) == Some("DEL"),
        spec_cc_name(39) is None,
        spec_cc_name(40) is None,
        spec_cc_name(41) is None,
        spec_cc_name(42) is None,
        spec_cc_name(43) is None,
        spec_cc_name(44) is None,
        spec_cc_name(45) is None,
        spec_cc_name(46) is None,
        spec_cc_name(47) is None,
        spec_cc_name(48) is None,
        spec_cc_name(49) is None,
        spec_cc_name(50) is None,
        spec_cc_name(51) is None,
        spec_cc_name(52) is None,
        spec_cc_name(53) is None,
        spec_cc_name(54) is None,
        spec_cc_name(55) is None,
        spec_cc_name(56) is None,
        spec_cc_name(57) is None,
        spec_cc_name(58) is None,
        spec_cc_name(59) is None,
        spec_cc_name(60) is None,
        spec_cc_name(61) is None,
        spec_cc_name(62) is None,
        spec_cc_name(63) is None,
        spec_cc_name(64) == Some("sus"),
        spec_cc_name(65) == Some("prt"),
        spec_cc_name(66) == Some("sos"),
        spec_cc_name(67) == Some("sft"),
        spec_cc_name(68) == Some("leg"),
        spec_cc_name(69) == Some("hld"),
        spec_cc_name(70) is None,
        spec_cc_name(71) is None,
        spec_cc_name(72) is None,
        spec_cc_name(73) is None,
        spec_cc_name(74) is None,
        spec_cc_name(75) is None,
        spec_cc_name(76) is None,
        spec_cc_name(77) is None,
        spec_cc_name(78) is None,
        spec_cc_name(79) is None,
        spec_cc_name(80) is None,
        spec_cc_name(81) is None,
        spec_cc_name(82) is None,
        spec_cc_name(83) is None,
        spec_cc_name(84) is None,
        spec_cc_name(85) is None,
        spec_cc_name(86) is None,
        spec_cc_name(87) is None,
        spec_cc_name(88) is None,
        spec_cc_name(89) is None,
        spec_cc_name(90) is None,
        spec_cc_name(91) is None,
        spec_cc_name(92) is None,
        spec_cc_name(93) is None,
        spec_cc_name(94) is None,
        spec_cc_name(95) is None,
        spec_cc_name(96) == Some("+1"),
        spec_cc_name(97) == Some("-1"),
        spec_cc_name(98) == Some("nrL"),
        spec_cc_name(99) == Some("nrM"),
        spec_cc_name(100) == Some("rpL"),
        spec_cc_name(101) == Some("rpM"),
        spec_cc_name(102) is None,
        spec_cc_name(103) is None,
        spec_cc_name(104) is None,
        spec_cc_name(105) is None,
        spec_cc_name(106) is None,
        spec_cc_name(107) is None,
        spec_cc_name(108) is None,
        spec_cc_name(109) is None,
        spec_cc_name(110) is None,
        spec_cc_name(111) is None,
        spec_cc_name(112) is None,
        spec_cc_name(113) is None,
        spec_cc_name(114) is None,
        spec_cc_name(115) is None,
        spec_cc_name(116) is None,
        spec_cc_name(117) is None,
        spec_cc_name(118) is None,
        spec_cc_name(119) is None,
        spec_cc_name(120) == Some("mut"),
        spec_cc_name(121) == Some("RAC"),
        spec_cc_name(122) == Some("LOC"),
        spec_cc_name(123) == Some("AN"),
        spec_cc_name(124) == Some("OMF"),
        spec_cc_name(125) == Some("OMN"),
        spec_cc_name(126) is None,
        spec_cc_name(127) is None,
        spec_cc_name(128) == Some("pat"),
        spec_cc_name(129) == Some("pit"),
        spec_cc_name(130) == Some("cat"),
        spec_cc_name(131) == Some("on"),
        spec_cc_name(132) == Some("vel"),
        spec_cc_name(133) == Some("off"),
        spec_cc_name(134) == Some("ov"),
        i >= CC_MAX ==> spec_cc_name(i) == None::<&'static str>,
{
}

/// Lane index to controller and back gives the index again, for every lane.
pub proof fn lemma_index_round_trip(i: u8)
    requires
        (i as usize) < CC_MAX,
    ensures
        spec_to_index(spec_from_index(i)) == i,
{
}

/// Controller to lane index and back gives the controller again, for every
/// canonical controller.
pub proof fn lemma_controller_round_trip(c: Cc)
    requires
        is_canonical(c),
    ensures
        spec_from_index(spec_to_index(c)) == c,
{
}

/// `CC_MAX` is exactly the number of lanes: every controller has an index
/// below it, and the last index below it is taken.
pub proof fn lemma_cc_max_is_lane_count(c: Cc)
    ensures
        (spec_to_index(c) as usize) < CC_MAX,
        spec_to_index(Cc::VelocityOff) as usize == CC_MAX - 1,
{
}

/// Two canonical controllers with the same lane index are the same controller.
pub proof fn lemma_index_injective(a: Cc, b: Cc)
    requires
        is_canonical(a),
        is_canonical(b),
        spec_to_index(a) == spec_to_index(b),
    ensures
        a == b,
{
    lemma_controller_round_trip(a);
    lemma_controller_round_trip(b);
}

} // verus!
