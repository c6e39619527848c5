use l76k_gps::gps::l76k::pcas::{
    encode_pcas, EncodedCommand, FixedBuf, Pcas03, PcasBaudrate, PcasBuildError, PcasCommand,
    PcasGnssMode, PcasRestartMode, PcasSentenceRate,
};

fn encoded<const N: usize>(cmd: &PcasCommand) -> Vec<u8> {
    let frame: EncodedCommand<N> = cmd.encode::<N>().expect("frame fits");
    frame.as_bytes().to_vec()
}

#[test]
fn baudrate_command_frame() {
    let cmd = PcasCommand::Pcas01SetBaudrate(PcasBaudrate::B115200);
    assert_eq!(encoded::<64>(&cmd), b"$PCAS01,5*19\r\n".to_vec());
    let cmd = PcasCommand::Pcas01SetBaudrate(PcasBaudrate::B4800);
    assert_eq!(encoded::<64>(&cmd), b"$PCAS01,0*1C\r\n".to_vec());
}

#[test]
fn update_rate_command_frame() {
    let cmd = PcasCommand::Pcas02SetUpdateRateMs(1000);
    assert_eq!(encoded::<64>(&cmd), b"$PCAS02,1000*2E\r\n".to_vec());
    let cmd = PcasCommand::Pcas02SetUpdateRateMs(65535);
    assert_eq!(encoded::<64>(&cmd), b"$PCAS02,65535*1F\r\n".to_vec());
    let cmd = PcasCommand::Pcas02SetUpdateRateMs(0);
    assert_eq!(encoded::<64>(&cmd), b"$PCAS02,0*1F\r\n".to_vec());
}

#[test]
fn sentence_rates_all_off_frame() {
    let cmd = PcasCommand::Pcas03SetSentenceRates(Pcas03::all_off());
    assert_eq!(
        encoded::<64>(&cmd),
        b"$PCAS03,0,0,0,0,0,0,0,0,0,0,,,0,0*02\r\n".to_vec()
    );
}

#[test]
fn sentence_rates_all_keep_frame() {
    let cmd = PcasCommand::Pcas03SetSentenceRates(Pcas03::all_keep());
    assert_eq!(encoded::<64>(&cmd), b"$PCAS03,,,,,,,,,0,0,,,0,0*02\r\n".to_vec());
}

#[test]
fn sentence_rates_mixed_frame() {
    let mut cfg = Pcas03::all_off();
    cfg.gga = PcasSentenceRate::every_n(1);
    cfg.rmc = PcasSentenceRate::every_n(1);
    let cmd = PcasCommand::Pcas03SetSentenceRates(cfg);
    assert_eq!(
        encoded::<64>(&cmd),
        b"$PCAS03,1,0,0,0,1,0,0,0,0,0,,,0,0*02\r\n".to_vec()
    );

    let mut cfg = Pcas03::all_keep();
    cfg.gga = PcasSentenceRate::every_n(9);
    cfg.gsa = PcasSentenceRate::every_n(5);
    cfg.rmc = PcasSentenceRate::every_n(1);
    cfg.zda = PcasSentenceRate::off();
    let cmd = PcasCommand::Pcas03SetSentenceRates(cfg);
    assert_eq!(
        encoded::<64>(&cmd),
        b"$PCAS03,9,,5,,1,,0,,0,0,,,0,0*0F\r\n".to_vec()
    );
}

#[test]
fn gnss_and_restart_command_frames() {
    let cmd = PcasCommand::Pcas04SetGnss(PcasGnssMode::GpsBeiDou);
    assert_eq!(encoded::<64>(&cmd), b"$PCAS04,3*1A\r\n".to_vec());
    let cmd = PcasCommand::Pcas04SetGnss(PcasGnssMode::GpsBeiDouGlonass);
    assert_eq!(encoded::<64>(&cmd), b"$PCAS04,7*1E\r\n".to_vec());
    let cmd = PcasCommand::Pcas10Restart(PcasRestartMode::HotStart);
    assert_eq!(encoded::<64>(&cmd), b"$PCAS10,0*1C\r\n".to_vec());
    let cmd = PcasCommand::Pcas10Restart(PcasRestartMode::ColdStart);
    assert_eq!(encoded::<64>(&cmd), b"$PCAS10,2*1E\r\n".to_vec());
}

#[test]
fn encode_fills_the_rest_with_zeros() {
    let cmd = PcasCommand::Pcas10Restart(PcasRestartMode::WarmStart);
    let frame = cmd.encode::<20>().unwrap();
    assert_eq!(frame.len, 14);
    assert_eq!(&frame.buf[..14], b"$PCAS10,1*1D\r\n");
    assert!(frame.buf[14..].iter().all(|&b| b == 0));
}

#[test]
fn encode_exact_buffer_and_too_small_buffer() {
    let cmd = PcasCommand::Pcas02SetUpdateRateMs(1000);
    let exact = cmd.encode::<17>().unwrap();
    assert_eq!(exact.as_bytes(), b"$PCAS02,1000*2E\r\n");
    assert_eq!(cmd.encode::<16>().err(), Some(PcasBuildError::BufferTooSmall));
    assert_eq!(cmd.encode::<0>().err(), Some(PcasBuildError::BufferTooSmall));
    let big = PcasCommand::Pcas03SetSentenceRates(Pcas03::all_off());
    assert_eq!(big.encode::<37>().err(), Some(PcasBuildError::BufferTooSmall));
    assert!(big.encode::<38>().is_ok());
}

#[test]
fn encode_pcas_wraps_any_payload() {
    let frame = encode_pcas::<32>("hello").unwrap();
    assert_eq!(frame.as_bytes(), b"$hello*62\r\n");
    let empty = encode_pcas::<6>("").unwrap();
    assert_eq!(empty.as_bytes(), b"$*00\r\n");
    assert_eq!(encode_pcas::<10>("hello").err(), Some(PcasBuildError::BufferTooSmall));
    assert_eq!(encode_pcas::<5>("").err(), Some(PcasBuildError::BufferTooSmall));
}

#[test]
fn encode_pcas_checksum_has_both_hex_digits() {
    // 'P' ^ 'C' = 0x13: a low high-nibble and a letter in the low one.
    let frame = encode_pcas::<16>("PC").unwrap();
    assert_eq!(frame.as_bytes(), b"$PC*13\r\n");
    let frame = encode_pcas::<16>("\u{7f}").unwrap();
    assert_eq!(frame.as_bytes(), b"$\x7f*7F\r\n");
}

#[test]
fn encoded_command_as_str() {
    let frame = PcasCommand::Pcas10Restart(PcasRestartMode::HotStart).encode::<32>().unwrap();
    assert_eq!(frame.as_str().unwrap(), "$PCAS10,0*1C\r\n");
    let bad = EncodedCommand::<4> { len: 2, buf: [0xff, 0xfe, 0, 0] };
    assert!(bad.as_str().is_err());
    assert_eq!(bad.as_bytes(), &[0xff, 0xfe]);
}

#[test]
fn protocol_codes() {
    assert_eq!(PcasBaudrate::B4800.code(), 0);
    assert_eq!(PcasBaudrate::B9600.code(), 1);
    assert_eq!(PcasBaudrate::B19200.code(), 2);
    assert_eq!(PcasBaudrate::B38400.code(), 3);
    assert_eq!(PcasBaudrate::B57600.code(), 4);
    assert_eq!(PcasBaudrate::B115200.code(), 5);
    assert_eq!(PcasGnssMode::Gps.code(), 1);
    assert_eq!(PcasGnssMode::BeiDou.code(), 2);
    assert_eq!(PcasGnssMode::GpsBeiDou.code(), 3);
    assert_eq!(PcasGnssMode::Glonass.code(), 4);
    assert_eq!(PcasGnssMode::GpsGlonass.code(), 5);
    assert_eq!(PcasGnssMode::BeiDouGlonass.code(), 6);
    assert_eq!(PcasGnssMode::GpsBeiDouGlonass.code(), 7);
    assert_eq!(PcasRestartMode::HotStart.code(), 0);
    assert_eq!(PcasRestartMode::WarmStart.code(), 1);
    assert_eq!(PcasRestartMode::ColdStart.code(), 2);
    assert_eq!(PcasRestartMode::FactoryReset.code(), 3);
}

#[test]
fn sentence_rate_constructors() {
    assert_eq!(PcasSentenceRate::every_n(0), PcasSentenceRate::off());
    assert_ne!(PcasSentenceRate::keep(), PcasSentenceRate::off());
    assert_eq!(Pcas03::all_keep().ant, PcasSentenceRate::keep());
    assert_eq!(Pcas03::all_off().gga, PcasSentenceRate::off());
}

#[test]
fn fixed_buf_push_byte_until_full() {
    let mut storage = [0u8; 2];
    let mut w = FixedBuf::new(&mut storage);
    assert_eq!(w.push_byte(1), Ok(()));
    assert_eq!(w.push_byte(2), Ok(()));
    assert_eq!(w.push_byte(3), Err(PcasBuildError::BufferTooSmall));
    assert_eq!(w.len, 2);
    assert_eq!(w.as_bytes(), &[1, 2]);
    assert_eq!(storage, [1, 2]);
}

#[test]
fn fixed_buf_push_bytes_is_all_or_nothing() {
    let mut storage = [0u8; 5];
    let mut w = FixedBuf::new(&mut storage);
    assert_eq!(w.push_bytes(b"abc"), Ok(()));
    assert_eq!(w.push_bytes(b"xyz"), Err(PcasBuildError::BufferTooSmall));
    assert_eq!(w.as_bytes(), b"abc");
    assert_eq!(w.push_bytes(b""), Ok(()));
    assert_eq!(w.push_bytes(b"de"), Ok(()));
    assert_eq!(w.push_bytes(b""), Ok(()));
    assert_eq!(w.as_bytes(), b"abcde");
    assert_eq!(storage, *b"abcde");
}

#[test]
fn fixed_buf_position_past_the_end() {
    let mut storage = [7u8; 3];
    let mut w = FixedBuf::new(&mut storage);
    w.len = 5;
    assert_eq!(w.push_byte(1), Err(PcasBuildError::BufferTooSmall));
    assert_eq!(w.push_bytes(b""), Err(PcasBuildError::BufferTooSmall));
    assert_eq!(PcasSentenceRate::keep().write_to(&mut w), Ok(()));
    assert_eq!(storage, [7, 7, 7]);
}

#[test]
fn sentence_rate_write_to() {
    let mut storage = [0u8; 2];
    let mut w = FixedBuf::new(&mut storage);
    assert_eq!(PcasSentenceRate::every_n(7).write_to(&mut w), Ok(()));
    assert_eq!(PcasSentenceRate::keep().write_to(&mut w), Ok(()));
    assert_eq!(PcasSentenceRate::off().write_to(&mut w), Ok(()));
    assert_eq!(w.as_bytes(), b"70");
    assert_eq!(PcasSentenceRate::every_n(3).write_to(&mut w), Err(PcasBuildError::Fmt));
    assert_eq!(PcasSentenceRate::keep().write_to(&mut w), Ok(()));
    assert_eq!(w.len, 2);
}

fn hex_value(c: u8) -> u8 {
    match c {
        b'0'..=b'9' => c - b'0',
        b'A'..=b'F' => c - b'A' + 10,
        _ => panic!("not an uppercase hex digit"),
    }
}

#[test]
fn every_encoded_command_passes_the_receiver_check() {
    let mut mixed = Pcas03::all_keep();
    mixed.gsv = PcasSentenceRate::every_n(4);
    let commands = [
        PcasCommand::Pcas01SetBaudrate(PcasBaudrate::B38400),
        PcasCommand::Pcas02SetUpdateRateMs(250),
        PcasCommand::Pcas03SetSentenceRates(mixed),
        PcasCommand::Pcas04SetGnss(PcasGnssMode::Glonass),
        PcasCommand::Pcas10Restart(PcasRestartMode::FactoryReset),
    ];
    for cmd in commands.iter() {
        let frame = encoded::<64>(cmd);
        let n = frame.len();
        assert_eq!(frame[0], b'$');
        assert_eq!(frame[n - 5], b'*');
        assert_eq!(&frame[n - 2..], b"\r\n");
        let payload = &frame[1..n - 5];
        assert!(payload.iter().all(|&b| b != b'$' && b != b'*' && b != b'\r' && b != b'\n'));
        assert!(payload.is_ascii());
        let xor = payload.iter().fold(0u8, |acc, &b| acc ^ b);
        assert_eq!(hex_value(frame[n - 4]) * 16 + hex_value(frame[n - 3]), xor);
        assert!(core::str::from_utf8(&frame).is_ok());
    }
}

#[test]
fn frame_length_follows_the_arguments() {
    let mut cfg = Pcas03::all_keep();
    assert_eq!(encoded::<64>(&PcasCommand::Pcas03SetSentenceRates(cfg)).len(), 30);
    cfg.gga = PcasSentenceRate::every_n(9);
    cfg.ant = PcasSentenceRate::off();
    cfg.zda = PcasSentenceRate::every_n(2);
    assert_eq!(encoded::<64>(&PcasCommand::Pcas03SetSentenceRates(cfg)).len(), 33);
    assert_eq!(encoded::<64>(&PcasCommand::Pcas03SetSentenceRates(Pcas03::all_off())).len(), 38);
    assert_eq!(encoded::<64>(&PcasCommand::Pcas02SetUpdateRateMs(7)).len(), 14);
    assert_eq!(encoded::<64>(&PcasCommand::Pcas02SetUpdateRateMs(12345)).len(), 18);
    assert_eq!(encoded::<64>(&PcasCommand::Pcas04SetGnss(PcasGnssMode::Gps)).len(), 14);
}

#[test]
fn checksum_of_joined_payloads() {
    let checksum_digits = |payload: &str| {
        let frame = encode_pcas::<64>(payload).unwrap();
        let b = frame.as_bytes();
        let n = b.len();
        hex_value(b[n - 4]) * 16 + hex_value(b[n - 3])
    };
    let a = checksum_digits("PCAS01,");
    let b = checksum_digits("5");
    assert_eq!(checksum_digits("PCAS01,5"), a ^ b);
    assert_eq!(checksum_digits("PCAS01,PCAS01,"), 0);
}
