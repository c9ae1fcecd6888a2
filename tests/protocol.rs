use dfu::connection::{
    decode_status, effective_transfer_size, erase_command, reconnect_outcome, reset_next,
    set_address_command,
    upload_block_value, DfuError, DfuStatus, ResetAction, ResetPhase,
};
use dfu::descriptor::{find_dfu_descriptor, is_dfu_descriptor, DfuDescriptor};

#[test]
fn status_from_raw() {
    let st = DfuStatus::from_raw(&[0, 0x10, 0x20, 0x03, 5, 0]);
    assert_eq!(st.status(), 0);
    assert_eq!(st.poll_timeout(), 0x032010);
    assert_eq!(st.state(), 5);
    assert!(st.ok().is_ok());
    assert_eq!(st.ret(42).ok(), Some(42));
}

#[test]
fn status_from_five_bytes() {
    let st = DfuStatus::from_raw(&[0, 0xFF, 0xFF, 0xFF, 2]);
    assert_eq!(st.poll_timeout(), 0xFF_FFFF);
    assert_eq!(st.state(), 2);
}

#[test]
fn reconnect_steps() {
    assert!(matches!(reconnect_outcome(true, 40_000), Some(Ok(()))));
    assert!(reconnect_outcome(false, 29_999).is_none());
    assert!(matches!(reconnect_outcome(false, 30_000), Some(Err(DfuError::Timeout))));
}

#[test]
fn nonzero_status_is_an_error() {
    let st = DfuStatus::from_raw(&[3, 0, 0, 0, 10, 0]);
    assert!(matches!(st.ok(), Err(DfuError::Status(3))));
    assert!(matches!(st.ret("x"), Err(DfuError::Status(3))));
}

#[test]
fn short_status_reply() {
    assert!(matches!(
        decode_status(&[0, 0, 0, 0, 2]),
        Err(DfuError::Transfer(nusb::transfer::TransferError::Fault))
    ));
    let st = decode_status(&[0, 1, 0, 0, 2, 0]).ok().unwrap();
    assert_eq!((st.status(), st.poll_timeout(), st.state()), (0, 1, 2));
}

#[test]
fn poll_until_download_idle() {
    let idle = DfuStatus::from_raw(&[0, 0, 0, 0, 5, 0]);
    assert!(matches!(idle.poll_outcome(0), Some(Ok(()))));
    let failed = DfuStatus::from_raw(&[4, 0, 0, 0, 5, 0]);
    assert!(matches!(failed.poll_outcome(20_000), Some(Err(DfuError::Status(4)))));
    let busy = DfuStatus::from_raw(&[0, 0, 0, 0, 4, 0]);
    assert!(busy.poll_outcome(9_999).is_none());
    assert!(matches!(busy.poll_outcome(10_000), Some(Err(DfuError::Timeout))));
}

#[test]
fn reset_sequence() {
    let error_idle = DfuStatus::from_raw(&[1, 0, 0, 0, 2, 0]);
    let ok_busy = DfuStatus::from_raw(&[0, 0, 0, 0, 5, 0]);
    let ok_idle = DfuStatus::from_raw(&[0, 0, 0, 0, 2, 0]);
    assert!(matches!(reset_next(ResetPhase::Started, &error_idle), ResetAction::ClearStatus));
    assert!(matches!(reset_next(ResetPhase::Started, &ok_busy), ResetAction::Abort));
    assert!(matches!(reset_next(ResetPhase::Cleared, &ok_busy), ResetAction::Abort));
    assert!(matches!(reset_next(ResetPhase::Started, &ok_idle), ResetAction::Finish(Ok(()))));
    assert!(matches!(reset_next(ResetPhase::Cleared, &ok_idle), ResetAction::Finish(Ok(()))));
    assert!(matches!(reset_next(ResetPhase::Aborted, &ok_busy), ResetAction::Finish(Ok(()))));
    assert!(matches!(
        reset_next(ResetPhase::Aborted, &error_idle),
        ResetAction::Finish(Err(DfuError::Status(1)))
    ));
    assert!(matches!(
        reset_next(ResetPhase::Cleared, &error_idle),
        ResetAction::Finish(Err(DfuError::Status(1)))
    ));
}

#[test]
fn dfuse_commands() {
    assert_eq!(set_address_command(0x08001234), vec![0x21, 0x34, 0x12, 0x00, 0x08]);
    assert_eq!(erase_command(0xAABBCCDD), vec![0x41, 0xDD, 0xCC, 0xBB, 0xAA]);
    assert_eq!(upload_block_value(0), 2);
    assert_eq!(upload_block_value(0xFFFD), 0xFFFF);
}

#[test]
fn transfer_size_default() {
    assert_eq!(effective_transfer_size(0), 2048);
    assert_eq!(effective_transfer_size(64), 64);
}

#[test]
fn functional_descriptor() {
    let raw = [9, 0x21, 0x0B, 0xFF, 0x00, 0x00, 0x08, 0x1A, 0x01];
    assert!(is_dfu_descriptor(&raw));
    let d = DfuDescriptor::new(&raw);
    assert!(d.can_download());
    assert!(d.can_upload());
    assert!(!d.manifestation_tolerant());
    assert!(d.will_detach());
    assert_eq!(d.detach_timeout(), 255);
    assert_eq!(d.transfer_size(), 2048);
    assert_eq!(d.dfu_version(), 0x011A);
    assert!(d.is_dfuse());
}

#[test]
fn descriptor_search() {
    let interface = vec![9, 4, 0, 0, 0, 0xFE, 1, 2, 4];
    let dfu = vec![9, 0x21, 0x01, 0x00, 0x01, 0x00, 0x04, 0x10, 0x01];
    let later = vec![9, 0x21, 0x0F, 0x00, 0x00, 0x00, 0x01, 0x1A, 0x01];
    let d = find_dfu_descriptor(&vec![interface.clone(), dfu, later]);
    assert_eq!(d.transfer_size(), 1024);
    assert_eq!(d.detach_timeout(), 256);
    assert_eq!(d.dfu_version(), 0x0110);
    assert!(!d.is_dfuse());
    let d = find_dfu_descriptor(&vec![interface, vec![7, 0x21, 1, 2, 3, 4, 5]]);
    assert_eq!((d.transfer_size(), d.dfu_version(), d.detach_timeout()), (0, 0, 0));
    assert!(!d.can_download());
    let d = DfuDescriptor::default();
    assert_eq!(effective_transfer_size(d.transfer_size()), 2048);
}
