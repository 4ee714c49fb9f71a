use as_r11_ultra_battery_tray::logging::{
    rotated_file_name, rotation_plan, RotationStep, LOG_FILES_TO_KEEP, MAX_LOG_FILE_BYTES,
};
use as_r11_ultra_battery_tray::text::{decimal_digits, decimal_string};

#[test]
fn decimals() {
    assert_eq!(decimal_digits(0), b"0".to_vec());
    assert_eq!(decimal_digits(100), b"100".to_vec());
    assert_eq!(decimal_digits(u64::MAX), u64::MAX.to_string().into_bytes());
    for n in [0u64, 9, 10, 99, 255, 1234567890] {
        assert_eq!(decimal_string(n), n.to_string());
    }
}

#[test]
fn rotation_plans() {
    assert!(rotation_plan(10, MAX_LOG_FILE_BYTES, LOG_FILES_TO_KEEP).is_empty());
    assert!(rotation_plan(MAX_LOG_FILE_BYTES, MAX_LOG_FILE_BYTES, 1).is_empty());
    assert_eq!(
        rotation_plan(MAX_LOG_FILE_BYTES, MAX_LOG_FILE_BYTES, LOG_FILES_TO_KEEP),
        vec![
            RotationStep::RemoveIfExists(2),
            RotationStep::RenameIfExists(1, 2),
            RotationStep::RenameBaseTo(1),
        ]
    );
    assert_eq!(
        rotation_plan(5, 1, 2),
        vec![RotationStep::RemoveIfExists(1), RotationStep::RenameBaseTo(1)]
    );
    assert_eq!(
        rotation_plan(5, 1, 5),
        vec![
            RotationStep::RemoveIfExists(4),
            RotationStep::RenameIfExists(3, 4),
            RotationStep::RenameIfExists(2, 3),
            RotationStep::RenameIfExists(1, 2),
            RotationStep::RenameBaseTo(1),
        ]
    );
}

#[test]
fn rotated_names() {
    assert_eq!(rotated_file_name("tray.log", 1), "tray.log.1");
    assert_eq!(rotated_file_name("tray.log", 12), "tray.log.12");
}
