use as_r11_ultra_battery_tray::protocol::{
    battery_request, checksum_ok, parse_battery_response, CHECKSUM_MOD, PERCENT_OFFSET,
    REPORT_ID, REPORT_LEN, SUBCOMMAND_BATTERY, VOLTAGE_LSB_OFFSET, VOLTAGE_MSB_OFFSET,
    WIRED_FLAG_OFFSET,
};

fn frame(percent: u8, wired: u8, voltage_mv: u16, bad_checksum: bool) -> Vec<u8> {
    let mut buf = vec![0u8; REPORT_LEN];
    buf[0] = REPORT_ID;
    buf[1] = SUBCOMMAND_BATTERY;
    buf[PERCENT_OFFSET] = percent;
    buf[WIRED_FLAG_OFFSET] = wired;
    buf[VOLTAGE_MSB_OFFSET] = ((voltage_mv >> 8) & 0xFF) as u8;
    buf[VOLTAGE_LSB_OFFSET] = (voltage_mv & 0xFF) as u8;
    let sum = buf[..16].iter().map(|b| u16::from(*b)).sum::<u16>() % 256;
    buf[16] = ((256 + u16::from(CHECKSUM_MOD) - sum) % 256) as u8;
    if bad_checksum {
        buf[16] = buf[16].wrapping_add(1);
    }
    buf
}

fn fix_checksum(buf: &mut Vec<u8>) {
    buf[16] = ((256 + u16::from(CHECKSUM_MOD)
        - (buf[..16].iter().map(|b| u16::from(*b)).sum::<u16>() % 256))
        % 256) as u8;
}

#[test]
fn request_checksum() {
    let req = battery_request();
    assert_eq!(req.len(), REPORT_LEN);
    assert!(checksum_ok(&req));
    assert_eq!(req, battery_request());
}

#[test]
fn parse_wireless_full() {
    let data = parse_battery_response(&frame(100, 0, 4193, false)).unwrap();
    assert_eq!(data.percent, 100);
    assert!(!data.wired);
    assert!(!data.charging);
    assert_eq!(data.voltage_mv, Some(4193));
}

#[test]
fn parse_charging() {
    let data = parse_battery_response(&frame(95, 1, 4100, false)).unwrap();
    assert_eq!(data.percent, 95);
    assert!(data.wired);
    assert!(data.charging);
}

#[test]
fn parse_wired_full_not_charging() {
    let data = parse_battery_response(&frame(100, 1, 0, false)).unwrap();
    assert!(!data.charging);
}

#[test]
fn rejects_bad_checksum() {
    assert!(parse_battery_response(&frame(80, 0, 0, true)).is_none());
}

#[test]
fn rejects_bad_percent() {
    let mut buf = frame(50, 0, 0, false);
    buf[PERCENT_OFFSET] = 150;
    fix_checksum(&mut buf);
    assert!(parse_battery_response(&buf).is_none());
}

#[test]
fn rejects_wrong_report() {
    let mut buf = frame(50, 0, 0, false);
    buf[0] = 0x09;
    fix_checksum(&mut buf);
    assert!(parse_battery_response(&buf).is_none());
}

#[test]
fn rejects_short() {
    assert!(parse_battery_response(&[1, 2, 3]).is_none());
}

#[test]
fn request_bytes_are_fixed() {
    let req = battery_request();
    assert_eq!(req[0], 0x08);
    assert_eq!(req[1], 0x04);
    assert_eq!(req[16], 0x49);
    assert!(req[2..16].iter().all(|b| *b == 0));
    let total: u32 = req.iter().map(|b| u32::from(*b)).sum();
    assert_eq!(total % 256, 0x55);
}

#[test]
fn frame_round_trip_for_every_field() {
    for percent in 0..=100u8 {
        for wired in [0u8, 1, 7] {
            for voltage in [0u16, 1, 255, 256, 3700, 4193, 65535] {
                let data = parse_battery_response(&frame(percent, wired, voltage, false)).unwrap();
                assert_eq!(data.percent, percent);
                assert_eq!(data.wired, wired != 0);
                assert_eq!(data.charging, wired != 0 && percent < 100);
                assert_eq!(data.voltage_mv, if voltage == 0 { None } else { Some(voltage) });
                assert!(parse_battery_response(&frame(percent, wired, voltage, true)).is_none());
            }
        }
    }
}

#[test]
fn percent_101_is_rejected_and_longer_frames_accepted() {
    let mut buf = frame(100, 0, 0, false);
    buf[PERCENT_OFFSET] = 101;
    fix_checksum(&mut buf);
    assert!(parse_battery_response(&buf).is_none());
    let mut long = frame(42, 0, 3000, false);
    long.extend_from_slice(&[0xAA, 0xBB, 0xCC]);
    let data = parse_battery_response(&long).unwrap();
    assert_eq!(data.percent, 42);
    assert_eq!(data.voltage_mv, Some(3000));
}

#[test]
fn wrong_subcommand_is_rejected() {
    let mut buf = frame(50, 0, 0, false);
    buf[1] = 0x05;
    fix_checksum(&mut buf);
    assert!(parse_battery_response(&buf).is_none());
}

#[test]
fn checksum_needs_full_report() {
    let req = battery_request();
    assert!(!checksum_ok(&req[..16]));
    assert!(!checksum_ok(&[]));
}
