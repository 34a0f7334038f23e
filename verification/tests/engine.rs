use std::time::Instant;

use midi_clock_shifter::engine::{InputEvent, RtMsg, CLOCK, CONTINUE, START, STOP};

#[test]
fn maps_realtime_status_bytes() {
    assert_eq!(RtMsg::from_status_byte(CLOCK), Some(RtMsg::Clock));
    assert_eq!(RtMsg::from_status_byte(START), Some(RtMsg::Start));
    assert_eq!(RtMsg::from_status_byte(CONTINUE), Some(RtMsg::Continue));
    assert_eq!(RtMsg::from_status_byte(STOP), Some(RtMsg::Stop));
    assert_eq!(RtMsg::from_status_byte(0xFE), None, "active sensing is not clock");
    assert_eq!(RtMsg::from_status_byte(0x90), None);
    assert_eq!(RtMsg::from_status_byte(0xF9), None);
}

#[test]
fn input_event_is_copy() {
    let e = InputEvent { at: Instant::now(), msg: RtMsg::Clock };
    let f = e;
    assert_eq!(e.msg, f.msg);
    assert_eq!(e.at, f.at);
}
