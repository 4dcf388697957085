use lightyear_replication::checkpoint::wrap_server_payload;
use lightyear_replication::checkpoint::CHECKPOINT_HEADER_LEN;
use lightyear_replication::checkpoint::CHECKPOINT_MAGIC;
use lightyear_replication::checkpoint::CHECKPOINT_VERSION;
use lightyear_replication::checkpoint::MAX_PACKET_SIZE;
use lightyear_replication::tick::Tick;

/// Regression coverage for send-side packet budgeting on replicon server channels 0/1.
///
/// These channels are wrapped with a checkpoint header immediately before send. If an inner
/// payload is already near the packet limit, wrapping pushes the final datagram over budget.
#[test]
fn wrapping_channel_0_or_1_payload_can_overflow_netcode_budget() {
    // The wrapper adds: 2-byte magic + 1-byte version + 4-byte tick.
    let pre_wrap_len = MAX_PACKET_SIZE - 6;
    let wrapped = wrap_server_payload(Tick(123), vec![0_u8; pre_wrap_len]);

    // Near-limit payload fits before wrapping, but overflows afterwards.
    assert_eq!(pre_wrap_len, 1194);
    assert_eq!(wrapped.len(), 1201);
    assert!(wrapped.len() > MAX_PACKET_SIZE);
}

#[test]
fn payload_that_accounts_for_wrapper_stays_within_netcode_budget() {
    // Leave exactly enough room for the wrapper overhead.
    let pre_wrap_len = MAX_PACKET_SIZE - 7;
    let wrapped = wrap_server_payload(Tick(456), vec![0_u8; pre_wrap_len]);

    assert_eq!(wrapped.len(), MAX_PACKET_SIZE);
}

#[test]
fn wrapped_payload_reads_back() {
    let wrapped = wrap_server_payload(Tick(0x0102_0304), vec![9, 8]);
    assert_eq!(CHECKPOINT_HEADER_LEN, 7);
    assert_eq!(&wrapped[0..2], &CHECKPOINT_MAGIC[..]);
    assert_eq!(wrapped[2], CHECKPOINT_VERSION);
    assert_eq!(&wrapped[3..7], &[1, 2, 3, 4][..]);
    assert_eq!(&wrapped[7..], &[9, 8][..]);
}

#[test]
fn empty_payload_is_wrapped_to_the_bare_header() {
    let wrapped = wrap_server_payload(Tick(u32::MAX), Vec::new());
    assert_eq!(wrapped, vec![0x4c, 0x59, 1, 255, 255, 255, 255]);
}
