use powerpico_client::error::CoreError;
use powerpico_client::ymodem::{
    crc16, header_block, packet, ReadOutcome, SenderAction, SenderPhase, WaitStatus, Waiter,
    YmodemSender, ACK, CRC_C, EOT, NAK, SOH, STX,
};

#[test]
fn crc_matches_xmodem_reference() {
    assert_eq!(crc16(b"123456789"), 0x31c3);
}

#[test]
fn packet_contains_complement_and_big_endian_crc() {
    let block = [0x42u8; 128];
    let bytes = packet(7, &block, false);
    assert_eq!(&bytes[..3], &[SOH, 7, 248]);
    assert_eq!(
        u16::from_be_bytes(bytes[131..133].try_into().unwrap()),
        crc16(&block)
    );
}

#[test]
fn crc_of_nothing_is_zero() {
    assert_eq!(crc16(&[]), 0);
}

#[test]
fn header_block_holds_name_nul_and_decimal_size() {
    let block = header_block(b"fw.bin", 70656).unwrap();
    assert_eq!(block.len(), 128);
    assert_eq!(&block[..12], b"fw.bin\x0070656");
    assert!(block[12..].iter().all(|b| *b == 0));
    let long = vec![b'a'; 127];
    assert_eq!(
        header_block(&long, 0),
        Err(CoreError::Other("firmware filename is too long for YMODEM".into()))
    );
    assert_eq!(header_block(&long[..126], 0).unwrap()[127], b'0');
}

#[test]
fn waiter_counts_unexpected_bytes() {
    let mut w = Waiter::new(ACK, 1);
    assert!(matches!(w.on_read(ReadOutcome::Byte(0x00)), WaitStatus::Pending));
    assert!(matches!(w.on_read(ReadOutcome::TimedOut), WaitStatus::Pending));
    match w.on_read(ReadOutcome::Byte(0x00)) {
        WaitStatus::Failed(CoreError::Other(m)) => assert_eq!(
            m,
            "received too much unexpected data while waiting for 0x06"
        ),
        _ => panic!("expected failure"),
    }
    let mut w = Waiter::new(CRC_C, 5);
    assert!(matches!(w.on_read(ReadOutcome::Byte(b'C')), WaitStatus::Matched));
    assert!(matches!(
        w.on_read(ReadOutcome::Failed("broken pipe".into())),
        WaitStatus::Failed(CoreError::Serial(_))
    ));
    assert_eq!(w.timeout_error(), CoreError::Timeout("waiting for 0x43".into()));
}

fn expect_wait(a: SenderAction, expected: u8, secs: u64, garbage: usize) {
    match a {
        SenderAction::WaitFor { expected: e, timeout_secs: t, max_garbage: g } => {
            assert_eq!((e, t, g), (expected, secs, garbage))
        }
        _ => panic!("expected a wait"),
    }
}

fn expect_write(a: SenderAction) -> Vec<u8> {
    match a {
        SenderAction::Write(v) => v,
        _ => panic!("expected a write"),
    }
}

#[test]
fn sender_runs_a_whole_transfer() {
    let file = vec![7u8; 1500];
    let (mut s, a) = YmodemSender::new(b"fw.bin".to_vec(), file.len() as u64);
    expect_wait(a, CRC_C, 60, 500);
    let header = expect_write(s.on_waited());
    assert_eq!(header.len(), 133);
    assert_eq!(&header[..3], &[SOH, 0, 255]);
    expect_wait(s.on_written(), ACK, 10, 100);
    expect_wait(s.on_waited(), CRC_C, 10, 100);
    assert!(matches!(s.on_waited(), SenderAction::ReadBlock));
    let first = expect_write(s.on_block(&file[..1024]));
    assert_eq!(first.len(), 1029);
    assert_eq!(&first[..3], &[STX, 1, 254]);
    expect_wait(s.on_written(), ACK, 10, 50);
    match s.on_waited() {
        SenderAction::Progress { sent, total } => assert_eq!((sent, total), (1024, 1500)),
        _ => panic!("expected progress"),
    }
    assert!(matches!(s.on_reported(), SenderAction::ReadBlock));
    let second = expect_write(s.on_block(&file[1024..]));
    assert_eq!(&second[..3], &[STX, 2, 253]);
    assert_eq!(second[3 + 476], 0x1a);
    expect_wait(s.on_written(), ACK, 10, 50);
    match s.on_waited() {
        SenderAction::Progress { sent, total } => assert_eq!((sent, total), (1500, 1500)),
        _ => panic!("expected progress"),
    }
    assert!(matches!(s.on_reported(), SenderAction::ReadBlock));
    assert_eq!(expect_write(s.on_block(&[])), vec![EOT]);
    assert!(matches!(s.on_written(), SenderAction::ReadReply { timeout_secs: 3 }));
    assert_eq!(expect_write(s.on_reply(NAK)), vec![EOT]);
    expect_wait(s.on_written(), ACK, 10, 50);
    expect_wait(s.on_waited(), CRC_C, 10, 50);
    let closing = expect_write(s.on_waited());
    assert_eq!(closing, packet(0, &[0u8; 128], false));
    expect_wait(s.on_written(), ACK, 10, 50);
    assert!(matches!(s.on_waited(), SenderAction::Done));
    assert_eq!(s.phase, SenderPhase::Finished);
}

#[test]
fn sender_rejects_an_unexpected_end_reply_and_honours_cancel() {
    let (mut s, _) = YmodemSender::new(b"a".to_vec(), 0);
    s.on_waited();
    s.on_written();
    s.on_waited();
    s.on_waited();
    s.on_block(&[]);
    s.on_written();
    match s.on_reply(0x15 + 1) {
        SenderAction::Fail(CoreError::Other(m)) => assert_eq!(m, "unexpected EOT response 0x16"),
        _ => panic!("expected failure"),
    }
    let (mut s, _) = YmodemSender::new(b"a".to_vec(), 10);
    s.on_waited();
    s.on_written();
    s.on_waited();
    s.on_waited();
    assert!(matches!(s.on_cancel(), SenderAction::Cancel));
    assert_eq!(YmodemSender::reply_timeout(), CoreError::Timeout("waiting for EOT response".into()));
}

#[test]
fn sender_fails_on_a_name_too_long_for_the_header() {
    let (mut s, _) = YmodemSender::new(vec![b'x'; 200], 1);
    match s.on_waited() {
        SenderAction::Fail(CoreError::Other(m)) => {
            assert_eq!(m, "firmware filename is too long for YMODEM")
        }
        _ => panic!("expected failure"),
    }
}

#[test]
fn every_packet_passes_the_receivers_crc_check() {
    let blocks: [&[u8]; 4] = [&[0u8; 128], &[0x42u8; 128], b"123456789", &[0xffu8; 1024]];
    for (sequence, block) in blocks.iter().enumerate() {
        let bytes = packet(sequence as u8, block, block.len() == 1024);
        assert_eq!(crc16(&bytes[3..]), 0);
    }
}
