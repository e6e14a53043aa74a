use ak1::proto::{get_device_info_request, Reply};
use ak1::status::{STATUS_DEVICE_CONFIGURATION_ERROR, STATUS_IO_TIMEOUT, STATUS_NOT_SUPPORTED};
use ak1::usb::{
    find_pipe, params_status, params_step, received_hresult, received_status, relative_timeout, select_streaming,
    sync_status, sync_step, ParamsStep, Pipes, SyncStep, REPLY_ATTEMPTS, SYNC_ATTEMPTS,
};

const INFO: [u8; 15] = [0x01, 0x16, 0x00, 0, 1, 0, 3, 4, 4, 2, 0, 0, 1, 1, 2];

fn found() -> SyncStep {
    match Reply::parse(&INFO) {
        Some(Reply::DeviceInfo(spec)) => SyncStep::Found(spec),
        _ => panic!("not device info"),
    }
}

#[test]
fn device_is_asked_again_until_it_answers() {
    assert_eq!(get_device_info_request(), [1]);
    for attempt in 0..SYNC_ATTEMPTS {
        let again = if attempt + 1 < SYNC_ATTEMPTS { SyncStep::Again } else { SyncStep::GaveUp };
        assert_eq!(sync_step(attempt, received_status(Err(STATUS_IO_TIMEOUT))), again);
        assert_eq!(sync_step(attempt, received_status(Ok(&[0x04, 1]))), again);
        assert_eq!(sync_step(attempt, received_status(Ok(&INFO))), found());
    }
}

#[test]
fn other_failures_end_the_asking() {
    assert_eq!(sync_step(0, received_status(Err(-2))), SyncStep::Failed(-2));
    assert_eq!(sync_status(SyncStep::Failed(-2)), Err(-2));
    assert_eq!(sync_status(SyncStep::GaveUp), Err(STATUS_IO_TIMEOUT));
    assert!(sync_status(found()).is_ok());
}

#[test]
fn user_mode_timeouts_are_timeouts() {
    let timeout = 0x8007_0079_u32 as i32;
    assert_eq!(sync_step(0, received_hresult(Err(timeout))), SyncStep::Again);
    assert_eq!(sync_step(0, received_hresult(Err(121))), SyncStep::Failed(121));
    assert_eq!(sync_step(0, received_hresult(Ok(&INFO))), found());
}

#[test]
fn parameters_are_accepted_rejected_or_not_answered() {
    assert_eq!(params_step(0, REPLY_ATTEMPTS, &[0x09, 1]), ParamsStep::Accepted);
    assert_eq!(params_step(0, REPLY_ATTEMPTS, &[0x09, 0]), ParamsStep::Rejected);
    assert_eq!(params_step(0, REPLY_ATTEMPTS, &[0x04, 0]), ParamsStep::Again);
    assert_eq!(params_step(7, REPLY_ATTEMPTS, &[0x04, 0]), ParamsStep::GaveUp);
    assert_eq!(params_step(7, REPLY_ATTEMPTS, &[0x09, 1]), ParamsStep::Accepted);
    assert_eq!(params_status(ParamsStep::Accepted), Ok(()));
    assert_eq!(params_status(ParamsStep::Rejected), Err(STATUS_NOT_SUPPORTED));
    assert_eq!(params_status(ParamsStep::GaveUp), Err(STATUS_IO_TIMEOUT));
}

#[test]
fn pipes_are_found_by_address() {
    let addresses = [0x81, 0x01, 0x82, 0x06, 0x01];
    assert_eq!(find_pipe(&addresses, 0x01), Ok(1));
    assert_eq!(find_pipe(&addresses, 0x07), Err(STATUS_DEVICE_CONFIGURATION_ERROR));
    assert_eq!(select_streaming(&addresses), Ok(Pipes { cmd_out: 1, cmd_in: 0, audio_in: 2, audio_out: 3 }));
    assert_eq!(select_streaming(&addresses[..3]), Err(STATUS_DEVICE_CONFIGURATION_ERROR));
}

#[test]
fn timeouts_are_relative() {
    assert_eq!(relative_timeout(1000), -10_000_000);
}
