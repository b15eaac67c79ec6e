use midi_monitor::cc_mon::CcValueTime;
use midi_monitor::comm_channel::{CommChannel, WhichBuffer};

fn m(k: u64) -> CcValueTime {
    CcValueTime { channel: 0, cc_num: 1, value: 2, instant: k }
}

#[test]
fn which_buffer_cycles() {
    assert_eq!(WhichBuffer::A.next(), WhichBuffer::B);
    assert_eq!(WhichBuffer::B.next(), WhichBuffer::C);
    assert_eq!(WhichBuffer::C.next(), WhichBuffer::A);
}

#[test]
fn nothing_is_readable_before_a_batch_completes() {
    let mut c = CommChannel::default();
    assert_eq!(c.pop(), None);
    c.push(m(1));
    c.push(m(2));
    assert_eq!(c.pop(), None);
    c.pushes_completed();
    assert_eq!(c.pop(), Some(m(1)));
    assert_eq!(c.pop(), Some(m(2)));
    assert_eq!(c.pop(), None);
}

#[test]
fn messages_come_out_in_push_order() {
    let mut c = CommChannel::default();
    let mut out = Vec::new();
    let mut next = 0u64;
    for round in 0..20u64 {
        for _ in 0..(round % 4) {
            c.push(m(next));
            next += 1;
        }
        c.pushes_completed();
        for _ in 0..(round % 3) {
            if let Some(v) = c.pop() {
                out.push(v.instant);
            }
        }
    }
    for _ in 0..3 {
        c.pushes_completed();
        while let Some(v) = c.pop() {
            out.push(v.instant);
        }
    }
    let expected: Vec<u64> = (0..next).collect();
    assert_eq!(out, expected);
}

#[test]
fn a_second_batch_waits_for_a_free_buffer() {
    let mut c = CommChannel::default();
    c.push(m(1));
    c.pushes_completed();
    c.push(m(2));
    c.pushes_completed();
    c.push(m(3));
    assert_eq!(c.pop(), Some(m(1)));
    assert_eq!(c.pop(), None);
    c.pushes_completed();
    assert_eq!(c.pop(), Some(m(2)));
    assert_eq!(c.pop(), Some(m(3)));
    assert_eq!(c.pop(), None);
}
