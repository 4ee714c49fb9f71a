use as_r11_ultra_battery_tray::device::{
    battery_collections, battery_query_step, enumerate_compx, QueryStep, poll_result, reading_from_response, BatteryReading,
    HidCollection, PollResult, Transaction, TransactAction, TransactEvent,
};
use as_r11_ultra_battery_tray::protocol::{
    BatteryData, PID_WIRED, PID_WIRELESS, REPORT_LEN, USAGE, USAGE_PAGE, VID,
};

fn collection(path: &str, vendor_id: u16, product_id: u16, usage_page: u16, usage: u16) -> HidCollection {
    HidCollection {
        path: path.into(),
        vendor_id,
        product_id,
        product_string: String::new(),
        manufacturer_string: String::new(),
        usage_page,
        usage,
        interface_number: 0,
    }
}

fn reading(percent: u8, wired: bool, charging: bool) -> BatteryReading {
    BatteryReading {
        percent,
        wired,
        charging,
        voltage_mv: None,
        vendor_id: 0x3554,
        product_id: 0xFB44,
        product_string: String::new(),
    }
}

#[test]
fn sort_prefers_wireless() {
    let wireless = HidCollection {
        path: "a".into(),
        vendor_id: VID,
        product_id: PID_WIRELESS,
        product_string: String::new(),
        manufacturer_string: String::new(),
        usage_page: USAGE_PAGE,
        usage: USAGE,
        interface_number: 0,
    };
    let wired = HidCollection {
        product_id: PID_WIRED,
        ..wireless.clone()
    };
    let list = battery_collections(vec![wired.clone(), wireless.clone()]);
    assert_eq!(list[0].product_id, PID_WIRELESS);
}

#[test]
fn falls_back_to_wired_then_others() {
    let list = battery_collections(vec![
        collection("x", VID, 0x1234, USAGE_PAGE, USAGE),
        collection("w", VID, PID_WIRED, USAGE_PAGE, USAGE),
    ]);
    assert_eq!(list.len(), 2);
    assert_eq!(list[0].product_id, PID_WIRED);
    assert_eq!(list[1].product_id, 0x1234);
}

#[test]
fn keeps_only_battery_interfaces_of_the_vendor() {
    let list = battery_collections(vec![
        collection("other-vendor", 0x1111, PID_WIRELESS, USAGE_PAGE, USAGE),
        collection("keyboard", VID, PID_WIRELESS, 0x0001, 0x0006),
        collection("wrong-usage", VID, PID_WIRELESS, USAGE_PAGE, 0x0001),
        collection("battery", VID, PID_WIRELESS, USAGE_PAGE, USAGE),
    ]);
    assert_eq!(list.len(), 1);
    assert_eq!(list[0].path, "battery");
    let compx = enumerate_compx(vec![
        collection("a", 0x1111, 1, 0, 0),
        collection("b", VID, 2, 0, 0),
        collection("c", VID, 3, 0, 0),
    ]);
    let paths: Vec<&str> = compx.iter().map(|c| c.path.as_str()).collect();
    assert_eq!(paths, vec!["b", "c"]);
}

#[test]
fn order_is_stable_within_a_product() {
    let list = battery_collections(vec![
        collection("w1", VID, PID_WIRED, USAGE_PAGE, USAGE),
        collection("z", VID, 0x0001, USAGE_PAGE, USAGE),
        collection("r1", VID, PID_WIRELESS, USAGE_PAGE, USAGE),
        collection("w2", VID, PID_WIRED, USAGE_PAGE, USAGE),
        collection("r2", VID, PID_WIRELESS, USAGE_PAGE, USAGE),
        collection("y", VID, 0x0000, USAGE_PAGE, USAGE),
    ]);
    let paths: Vec<&str> = list.iter().map(|c| c.path.as_str()).collect();
    assert_eq!(paths, vec!["r1", "r2", "w1", "w2", "y", "z"]);
    assert!(battery_collections(Vec::new()).is_empty());
}

#[test]
fn state_labels() {
    assert_eq!(reading(50, false, false).state_label(), "discharging");
    assert_eq!(reading(95, true, true).state_label(), "charging");
    assert_eq!(reading(100, true, false).state_label(), "full");
    assert_eq!(reading(80, true, false).state_label(), "wired");
}

#[test]
fn reading_takes_device_identity() {
    let mut col = collection("p", VID, PID_WIRED, USAGE_PAGE, USAGE);
    col.product_string = "R11 ULTRA".into();
    let parsed = BatteryData { percent: 77, wired: true, charging: true, voltage_mv: Some(4000) };
    let r = BatteryReading::from_parts(parsed, &col);
    assert_eq!(r.percent, 77);
    assert!(r.wired && r.charging);
    assert_eq!(r.voltage_mv, Some(4000));
    assert_eq!(r.vendor_id, VID);
    assert_eq!(r.product_id, PID_WIRED);
    assert_eq!(r.product_string, "R11 ULTRA");
}

#[test]
fn responses_become_readings() {
    let col = collection("p", VID, PID_WIRELESS, USAGE_PAGE, USAGE);
    let mut good = vec![0u8; REPORT_LEN];
    good[0] = 0x08;
    good[1] = 0x04;
    good[6] = 60;
    let sum: u32 = good.iter().map(|b| u32::from(*b)).sum();
    good[16] = ((0x55 + 256 * 4 - sum) % 256) as u8;
    let r = reading_from_response(&col, Some(good.clone())).unwrap();
    assert_eq!(r.percent, 60);
    assert_eq!(r.product_id, PID_WIRELESS);
    good[16] ^= 1;
    assert!(reading_from_response(&col, Some(good)).is_none());
    assert!(reading_from_response(&col, None).is_none());
}

#[test]
fn poll_results_explain_missing_readings() {
    let ok = poll_result(Some(reading(40, false, false)), true);
    assert_eq!(ok.reading.unwrap().percent, 40);
    assert!(ok.errors.is_empty());
    let none = poll_result(None, false);
    assert!(none.reading.is_none());
    assert_eq!(none.errors, vec!["No Compx R11 Ultra battery interface found".to_string()]);
    let silent = poll_result(None, true);
    assert_eq!(silent.errors, vec!["Device found but battery query failed".to_string()]);
    let empty = PollResult::default();
    assert!(empty.reading.is_none() && empty.errors.is_empty());
}

#[test]
fn transaction_accepts_matching_reply() {
    assert!(Transaction::start(&[], REPORT_LEN).is_none());
    let mut t = Transaction::start(&[0x08, 0x04], REPORT_LEN).unwrap();
    assert!(matches!(t.on_event(TransactEvent::Written(17)), TransactAction::PauseThenListen));
    assert!(matches!(t.on_event(TransactEvent::ReadNothing), TransactAction::Read));
    let mut other = vec![0u8; 64];
    other[0] = 0x07;
    assert!(matches!(t.on_event(TransactEvent::ReadBytes(other, 20)), TransactAction::Read));
    let mut reply = vec![0u8; 64];
    reply[0] = 0x08;
    reply[1] = 0x04;
    reply[20] = 9;
    match t.on_event(TransactEvent::ReadBytes(reply, 30)) {
        TransactAction::Done(Some(bytes)) => {
            assert_eq!(bytes.len(), REPORT_LEN);
            assert_eq!(bytes[0], 0x08);
            assert_eq!(bytes[1], 0x04);
        }
        other => panic!("unexpected {other:?}"),
    }
}

#[test]
fn transaction_gives_up_after_three_rounds() {
    let mut t = Transaction::start(&[0x08], REPORT_LEN).unwrap();
    assert!(matches!(t.on_event(TransactEvent::Written(0)), TransactAction::PauseThenWrite));
    assert_eq!(t.attempt, 1);
    assert!(matches!(t.on_event(TransactEvent::Written(17)), TransactAction::PauseThenListen));
    assert!(matches!(t.on_event(TransactEvent::DeadlinePassed), TransactAction::Write));
    assert_eq!(t.attempt, 2);
    assert!(matches!(t.on_event(TransactEvent::Written(17)), TransactAction::PauseThenListen));
    assert!(matches!(t.on_event(TransactEvent::ReadFailed), TransactAction::Done(None)));
    assert_eq!(t.attempt, 3);

    let mut u = Transaction::start(&[0x08], REPORT_LEN).unwrap();
    assert!(matches!(u.on_event(TransactEvent::WriteFailed), TransactAction::Done(None)));
    let mut v = Transaction::start(&[0x08], REPORT_LEN).unwrap();
    assert!(matches!(v.on_event(TransactEvent::Written(0)), TransactAction::PauseThenWrite));
    assert!(matches!(v.on_event(TransactEvent::Written(0)), TransactAction::PauseThenWrite));
    assert!(matches!(v.on_event(TransactEvent::Written(0)), TransactAction::PauseThenGiveUp));
}

#[test]
fn query_falls_back_in_order() {
    let targets = vec![
        collection("wireless", VID, PID_WIRELESS, USAGE_PAGE, USAGE),
        collection("wired", VID, PID_WIRED, USAGE_PAGE, USAGE),
    ];
    let mut good = vec![0u8; REPORT_LEN];
    good[0] = 0x08;
    good[1] = 0x04;
    good[6] = 33;
    good[16] = ((0x55u32 + 256 - (8 + 4 + 33)) % 256) as u8;
    assert!(matches!(battery_query_step(&targets, 0, None), QueryStep::Next(1)));
    match battery_query_step(&targets, 1, Some(good.clone())) {
        QueryStep::Finished(Some(r)) => {
            assert_eq!(r.percent, 33);
            assert_eq!(r.product_id, PID_WIRED);
        }
        other => panic!("unexpected {other:?}"),
    }
    match battery_query_step(&targets, 0, Some(good)) {
        QueryStep::Finished(Some(r)) => assert_eq!(r.product_id, PID_WIRELESS),
        other => panic!("unexpected {other:?}"),
    }
    assert!(matches!(battery_query_step(&targets, 1, Some(vec![1, 2, 3])), QueryStep::Finished(None)));
}
