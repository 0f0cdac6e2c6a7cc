use ddtrace::session::{
    consume_probe, consume_record, pump_continue, InstrumentationThreadMessage, PumpStatus, CONSUME_NEXT,
    CONSUME_THIS, DRIVER_EINTR, RECORD_END_ACTION,
};

#[test]
fn pump_keeps_going_while_okay() {
    assert!(pump_continue(PumpStatus::Okay, 0, None));
}

#[test]
fn pump_stops_when_driver_is_done() {
    assert!(!pump_continue(PumpStatus::Done, 0, None));
}

#[test]
fn pump_stops_on_a_real_error() {
    assert!(!pump_continue(PumpStatus::Error, 1, None));
}

#[test]
fn interrupted_pump_is_transient() {
    assert!(pump_continue(PumpStatus::Error, DRIVER_EINTR, None));
}

#[test]
fn stop_message_cancels_cooperatively() {
    assert!(!pump_continue(PumpStatus::Okay, 0, Some(InstrumentationThreadMessage::Stop)));
    assert!(!pump_continue(
        PumpStatus::Error,
        DRIVER_EINTR,
        Some(InstrumentationThreadMessage::Stop)
    ));
}

#[test]
fn record_boundary_flushes_and_advances() {
    let step = consume_record(true, RECORD_END_ACTION);
    assert!(step.flush);
    assert_eq!(step.reply, CONSUME_NEXT);
}

#[test]
fn missing_record_flushes_and_advances() {
    let step = consume_record(false, 0);
    assert!(step.flush);
    assert_eq!(step.reply, CONSUME_NEXT);
}

#[test]
fn ordinary_record_is_consumed_in_place() {
    let step = consume_record(true, 1);
    assert!(!step.flush);
    assert_eq!(step.reply, CONSUME_THIS);
}

#[test]
fn probe_records_are_taken_in_place() {
    assert_eq!(consume_probe(), CONSUME_THIS);
}
