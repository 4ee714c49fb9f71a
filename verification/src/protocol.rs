//! Compx / Nordic 52840 battery HID protocol constants and parsing.

use vstd::prelude::*;

verus! {

pub const VID: u16 = 0x3554;
pub const PID_WIRELESS: u16 = 0xFB44;
pub const PID_WIRED: u16 = 0xFB43;

pub const USAGE_PAGE: u16 = 0xFF02;
pub const USAGE: u16 = 0x0002;

pub const REPORT_ID: u8 = 0x08;
pub const SUBCOMMAND_BATTERY: u8 = 0x04;
pub const REPORT_LEN: usize = 17;
pub const CHECKSUM_MOD: u8 = 0x55;

pub const PERCENT_OFFSET: usize = 6;
pub const WIRED_FLAG_OFFSET: usize = 7;
pub const VOLTAGE_MSB_OFFSET: usize = 8;
pub const VOLTAGE_LSB_OFFSET: usize = 9;

pub const POLL_INTERVAL_SEC: u64 = 30;
pub const STALE_READING_SEC: u64 = 300;

/// Pause between writing a request and listening for its reply, and between
/// rounds, in milliseconds.
pub const TRANSACTION_DELAY_MS: u64 = 100;
/// How long one round listens for the reply, in milliseconds.
pub const LISTEN_WINDOW_MS: u64 = 1000;

/// One battery report as the device sends it.
#[derive(Debug, Clone, Copy, PartialEq, Eq)]
pub struct BatteryData {
    pub percent: u8,
    pub wired: bool,
    pub charging: bool,
    pub voltage_mv: Option<u16>,
}

/// Sum of the bytes of `s`, as an unbounded integer.
pub open spec fn byte_sum(s: Seq<u8>) -> int
    decreases s.len(),
{
    if s.len() == 0 {
        0
    } else {
        byte_sum(s.drop_last()) + s.last()
    }
}

/// A frame carries a valid checksum when it holds at least a full report and
/// the bytes of the report sum to `CHECKSUM_MOD` modulo 256.
pub open spec fn spec_checksum_ok(s: Seq<u8>) -> bool {
    s.len() >= REPORT_LEN && byte_sum(s.take(REPORT_LEN as int)) % 256 == CHECKSUM_MOD as int
}

/// The fixed battery request: report id, battery subcommand, zero padding and
/// a final byte that makes the report sum to `CHECKSUM_MOD`.
pub open spec fn spec_battery_request() -> Seq<u8> {
    seq![
        REPORT_ID, SUBCOMMAND_BATTERY, 0u8, 0u8, 0u8, 0u8, 0u8, 0u8,
        0u8, 0u8, 0u8, 0u8, 0u8, 0u8, 0u8, 0u8, 0x49u8,
    ]
}

/// The big-endian voltage field of a response.
pub open spec fn spec_voltage(s: Seq<u8>) -> int {
    s[VOLTAGE_MSB_OFFSET as int] * 256 + s[VOLTAGE_LSB_OFFSET as int]
}

/// What a response frame decodes to.
pub open spec fn spec_parse_battery_response(s: Seq<u8>) -> Option<BatteryData> {
    if !spec_checksum_ok(s) || s[0] != REPORT_ID || s[1] != SUBCOMMAND_BATTERY
        || s[PERCENT_OFFSET as int] > 100 {
        None
    } else {
        let percent = s[PERCENT_OFFSET as int];
        let wired = s[WIRED_FLAG_OFFSET as int] != 0;
        let v = spec_voltage(s);
        Some(BatteryData {
            percent,
            wired,
            charging: wired && percent < 100,
            voltage_mv: if v == 0 { None } else { Some(v as u16) },
        })
    }
}

/// The request that asks the device for its battery state.
pub fn battery_request() -> (req: [u8; REPORT_LEN])
    ensures
        req@ == spec_battery_request(),
{
    let req: [u8; REPORT_LEN] = [
        REPORT_ID, SUBCOMMAND_BATTERY, 0, 0, 0, 0, 0, 0,
        0, 0, 0, 0, 0, 0, 0, 0, 0x49,
    ];
    assert(req@ =~= spec_battery_request());
    req
}

/// Whether `data` holds a full report whose bytes sum to `CHECKSUM_MOD` mod 256.
pub fn checksum_ok(data: &[u8]) -> (ok: bool)
    ensures
        ok == spec_checksum_ok(data@),
{
    if data.len() < REPORT_LEN {
        return false;
    }
    let mut sum: u16 = 0;
    let mut i: usize = 0;
    while i < REPORT_LEN
        invariant
            data@.len() >= REPORT_LEN,
            i <= REPORT_LEN,
            sum == byte_sum(data@.take(i as int)),
            sum <= 255 * i,
        decreases REPORT_LEN - i,
    {
        assert(data@.take(i as int + 1).drop_last() =~= data@.take(i as int));
        sum = sum + data[i] as u16;
        i = i + 1;
    }
    sum % 256 == CHECKSUM_MOD as u16
}

/// Decodes a battery response; `None` for a short frame, a bad checksum, a
/// foreign report or a percentage above 100.
pub fn parse_battery_response(data: &[u8]) -> (parsed: Option<BatteryData>)
    ensures
        parsed == spec_parse_battery_response(data@),
{
    if data.len() < REPORT_LEN || !checksum_ok(data) {
        return None;
    }
    if data[0] != REPORT_ID || data[1] != SUBCOMMAND_BATTERY {
        return None;
    }
    let percent = data[PERCENT_OFFSET];
    if percent > 100 {
        return None;
    }
    let wired = data[WIRED_FLAG_OFFSET] != 0;
    let msb = data[VOLTAGE_MSB_OFFSET];
    let lsb = data[VOLTAGE_LSB_OFFSET];
    let voltage = (msb as u16) << 8 | lsb as u16;
    assert(voltage == msb * 256 + lsb) by (bit_vector)
        requires
            voltage == (msb as u16) << 8 | lsb as u16,
    ;
    let voltage_mv = if voltage == 0 { None } else { Some(voltage) };
    Some(BatteryData {
        percent,
        wired,
        charging: wired && percent < 100,
        voltage_mv,
    })
}

/// The checksum byte that completes the first sixteen bytes of a report.
pub open spec fn spec_checksum_byte(head: Seq<u8>) -> u8 {
    ((256 + CHECKSUM_MOD as int - byte_sum(head) % 256) % 256) as u8
}

/// A well-formed battery response carrying the given fields.
pub open spec fn spec_battery_frame(percent: u8, wired: u8, voltage: u16) -> Seq<u8> {
    let head = spec_frame_head(percent, wired, voltage);
    head.push(spec_checksum_byte(head))
}

/// The first sixteen bytes of a battery response carrying the given fields.
pub open spec fn spec_frame_head(percent: u8, wired: u8, voltage: u16) -> Seq<u8> {
    seq![
        REPORT_ID, SUBCOMMAND_BATTERY, 0u8, 0u8, 0u8, 0u8, percent, wired,
        (voltage / 256) as u8, (voltage % 256) as u8, 0u8, 0u8, 0u8, 0u8, 0u8, 0u8,
    ]
}

proof fn lemma_byte_sum_push(s: Seq<u8>, b: u8)
    ensures
        byte_sum(s.push(b)) == byte_sum(s) + b,
{
    assert(s.push(b).drop_last() =~= s);
}

/// The battery request is a full report: report id 0x08, battery
/// subcommand 0x04, zero padding, and a last byte that gives it a valid
/// checksum.
pub proof fn lemma_battery_request_checksum()
    ensures
        spec_checksum_ok(spec_battery_request()),
        spec_battery_request().len() == 17,
        spec_battery_request()[0] == 0x08,
        spec_battery_request()[1] == 0x04,
        forall|i: int| 2 <= i < 16 ==> #[trigger] spec_battery_request()[i] == 0,
{
    let r = spec_battery_request();
    assert(r.take(REPORT_LEN as int) =~= r);
    reveal_with_fuel(byte_sum, 18);
    assert(byte_sum(r) == 0x55);
}

/// A report built from a percentage of at most 100, a wired flag and a
/// voltage decodes back to exactly those fields; charging means wired and
/// not yet full, and a zero voltage means none was reported.
pub proof fn lemma_parse_battery_frame(percent: u8, wired: u8, voltage: u16)
    requires
        percent <= 100,
    ensures
        spec_parse_battery_response(spec_battery_frame(percent, wired, voltage)) == Some(
            BatteryData {
                percent,
                wired: wired != 0,
                charging: wired != 0 && percent < 100,
                voltage_mv: if voltage == 0 { None } else { Some(voltage) },
            },
        ),
{
    let frame = spec_battery_frame(percent, wired, voltage);
    let head = spec_frame_head(percent, wired, voltage);
    lemma_byte_sum_push(head, frame.last());
    assert(frame.take(REPORT_LEN as int) =~= frame);
    let s = byte_sum(head);
    assert(s >= 0) by {
        reveal_with_fuel(byte_sum, 17);
    }
    let c = spec_checksum_byte(head);
    assert((s + c) % 256 == 0x55) by (nonlinear_arith)
        requires
            c == ((256 + 0x55 - s % 256) % 256) as u8,
            s >= 0,
    ;
    assert(byte_sum(frame.take(REPORT_LEN as int)) % 256 == CHECKSUM_MOD as int);
    assert(spec_checksum_ok(frame));
    assert(frame[0] == REPORT_ID && frame[1] == SUBCOMMAND_BATTERY);
    assert(frame[PERCENT_OFFSET as int] == percent);
    assert(frame[WIRED_FLAG_OFFSET as int] == wired);
    let hi = voltage / 256;
    let lo = voltage % 256;
    assert(hi < 256 && hi * 256 + lo == voltage) by (nonlinear_arith)
        requires
            hi == voltage / 256,
            lo == voltage % 256,
            voltage < 65536,
    ;
    assert(frame[VOLTAGE_MSB_OFFSET as int] == hi);
    assert(frame[VOLTAGE_LSB_OFFSET as int] == lo);
    assert(spec_voltage(frame) == voltage);
}

/// A report whose checksum byte is off by one is rejected.
pub proof fn lemma_parse_rejects_bad_checksum(percent: u8, wired: u8, voltage: u16)
    ensures
        ({
            let frame = spec_battery_frame(percent, wired, voltage);
            let bad = frame.update(16, ((frame[16] + 1) % 256) as u8);
            spec_parse_battery_response(bad) is None
        }),
{
    let frame = spec_battery_frame(percent, wired, voltage);
    let head = spec_frame_head(percent, wired, voltage);
    let bad = frame.update(16, ((frame[16] + 1) % 256) as u8);
    assert(head.push(bad.last()) =~= bad);
    assert(head.push(frame.last()) =~= frame);
    lemma_byte_sum_push(head, bad.last());
    assert(bad.take(REPORT_LEN as int) =~= bad);
    let s = byte_sum(head);
    assert(s >= 0) by {
        reveal_with_fuel(byte_sum, 17);
    }
    let c = spec_checksum_byte(head);
    let d = ((c + 1) % 256) as u8;
    assert((s + d) % 256 != 0x55) by (nonlinear_arith)
        requires
            c == ((256 + 0x55 - s % 256) % 256) as u8,
            d == ((c + 1) % 256) as u8,
            s >= 0,
    ;
    assert(byte_sum(bad.take(REPORT_LEN as int)) == s + d);
    assert(!spec_checksum_ok(bad));
}

} // verus!
