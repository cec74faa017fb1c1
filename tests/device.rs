use transmission_controller::device::{df_target, get_device_usage};

#[test]
fn test_get_device_usage() {
    assert_eq!(df_target("/some/path"), "/some/path/");
    assert_eq!(
        get_device_usage("\
            Filesystem     1K-blocks     Used Available Use% Mounted on\n\
            /dev/sdb1      153836548 55183692  98636472  36% /mnt/var_data\n\
        ").unwrap(),
        ("/dev/sdb1".to_string(), 36)
    );
}

#[test]
fn test_get_device_usage_no_data() {
    assert_eq!(df_target("/some/path"), "/some/path/");
    assert_eq!(
        get_device_usage("\
            Filesystem     1K-blocks     Used Available Use% Mounted on\n\
        ").unwrap_err().to_string(),
        "Got an unexpected output from `df`"
    );
}

#[test]
fn test_get_device_usage_few_devices() {
    assert_eq!(df_target("/some/path/"), "/some/path/");
    assert_eq!(
        get_device_usage("\
            Filesystem     1K-blocks      Used Available Use% Mounted on\n\
            /dev/sda1       30830592  16071884  13169564  55% /\n\
            /dev/sdb1      153836548  48887416 104932748  32% /mnt/var_data\n\
        ").unwrap_err().to_string(),
        "Got an unexpected output from `df`"
    );
}

#[test]
fn device_usage_scenario() {
    let out = "Filesystem 1K-blocks Used Available Use% Mounted on\n/dev/sdb1 153836548 55183692 98636472 36% /mnt/var_data";
    assert_eq!(get_device_usage(out), Ok(("/dev/sdb1".to_string(), 36)));
}

#[test]
fn device_names_with_spaces_and_small_usage() {
    let out = "  Filesystem 1K-blocks Used Available Use% Mounted on\n  my disk 10 20 30 7% /x\n\n";
    assert_eq!(get_device_usage(out), Ok(("my disk".to_string(), 7)));
}

#[test]
fn device_usage_refusals() {
    assert!(get_device_usage("").is_err());
    assert!(get_device_usage("header\n/dev/sda1 1 2 3 100% /").is_err());
    assert!(get_device_usage("header\n/dev/sda1 1 2 36% /").is_err());
    assert!(get_device_usage("header\nno numbers here").is_err());
}
