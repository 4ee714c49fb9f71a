use as_r11_ultra_battery_tray::device::BatteryReading;
use as_r11_ultra_battery_tray::tray::{
    display_key_for, menu_action, once_report, plan_refresh, should_poll, status_text,
    DisplayKey, MenuAction, PollWorker, WorkerCommand, WorkerWake,
};

fn reading(percent: u8, charging: bool) -> BatteryReading {
    BatteryReading {
        percent,
        wired: charging,
        charging,
        voltage_mv: None,
        vendor_id: 0x3554,
        product_id: 0xFB44,
        product_string: String::new(),
    }
}

const SECOND: u64 = 1_000_000_000;

#[test]
fn skip_redundant_icon_key() {
    let reading = BatteryReading {
        percent: 100,
        wired: false,
        charging: false,
        voltage_mv: None,
        vendor_id: 0x3554,
        product_id: 0xFB44,
        product_string: String::new(),
    };
    let a = display_key_for(Some(&reading), false);
    let b = display_key_for(Some(&reading), false);
    assert_eq!(a, b);
    let c = display_key_for(Some(&reading), true);
    assert_ne!(a, c);
}

#[test]
fn status_text_formats_stale() {
    let reading = BatteryReading {
        percent: 50,
        wired: false,
        charging: false,
        voltage_mv: None,
        vendor_id: 0x3554,
        product_id: 0xFB44,
        product_string: String::new(),
    };
    assert!(status_text(Some(&reading), true).contains("last reading"));
}

#[test]
fn status_texts() {
    assert_eq!(status_text(None, true), "Attack Shark R11 Ultra: disconnected");
    assert_eq!(status_text(Some(&reading(7, false)), false), "Attack Shark R11 Ultra: 7%");
    assert_eq!(
        status_text(Some(&reading(88, true)), true),
        "Attack Shark R11 Ultra: 88% (charging)"
    );
    assert_eq!(
        status_text(Some(&reading(100, false)), true),
        "Attack Shark R11 Ultra: 100% (last reading)"
    );
}

#[test]
fn once_reports() {
    assert_eq!(once_report(None), "No battery reading available.");
    assert_eq!(once_report(Some(&reading(64, false))), "Attack Shark R11 Ultra \u{2014} 64%");
    assert_eq!(
        once_report(Some(&reading(5, true))),
        "Attack Shark R11 Ultra \u{2014} 5% (charging)"
    );
}

#[test]
fn refresh_plans() {
    let mut last = DisplayKey { percent: None, charging: false, stale: false };
    let key = display_key_for(Some(&reading(50, false)), false);
    let plan = plan_refresh(key, &mut last);
    assert!(plan.update_icon && plan.update_text);
    assert_eq!(last, key);
    let again = plan_refresh(key, &mut last);
    assert!(!again.update_icon && !again.update_text);
    let stale = display_key_for(Some(&reading(50, false)), true);
    let plan = plan_refresh(stale, &mut last);
    assert!(!plan.update_icon && plan.update_text);
    assert_eq!(last, stale);
}

#[test]
fn menu_actions() {
    assert_eq!(menu_action("refresh"), MenuAction::Refresh);
    assert_eq!(menu_action("exit"), MenuAction::Exit);
    assert_eq!(menu_action("autostart"), MenuAction::ToggleAutostart);
    assert_eq!(menu_action("Refresh"), MenuAction::Ignore);
    assert_eq!(menu_action(""), MenuAction::Ignore);
}

#[test]
fn worker_wakes() {
    assert!(should_poll(WorkerWake::Command(WorkerCommand::PollNow)));
    assert!(should_poll(WorkerWake::TimedOut));
    assert!(!should_poll(WorkerWake::Command(WorkerCommand::Shutdown)));
    assert!(!should_poll(WorkerWake::Disconnected));
}

#[test]
fn worker_keeps_reading_for_five_minutes() {
    let mut w = PollWorker::new();
    let (d, check) = w.on_poll(10 * SECOND, None);
    assert!(d.reading.is_none() && !d.stale && check);
    let (d, check) = w.on_poll(20 * SECOND, Some(reading(70, false)));
    assert_eq!(d.reading.unwrap().percent, 70);
    assert!(!d.stale && !check);
    let (d, check) = w.on_poll(320 * SECOND, None);
    assert_eq!(d.reading.unwrap().percent, 70);
    assert!(d.stale && !check);
    let (d, check) = w.on_poll(320 * SECOND + 1, None);
    assert!(d.reading.is_none() && !d.stale && check);
    assert!(w.last.is_none());
    let (d, _) = w.on_poll(321 * SECOND, None);
    assert!(d.reading.is_none());
}

#[test]
fn worker_clock_going_back_counts_as_fresh() {
    let mut w = PollWorker::new();
    w.on_poll(100 * SECOND, Some(reading(30, true)));
    let (d, _) = w.on_poll(50 * SECOND, None);
    assert!(d.stale);
    assert_eq!(d.reading.unwrap().percent, 30);
}
