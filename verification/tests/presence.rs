//! The presence backends' decisions and the file locations.

use secure_ssh::session::{session_outcome, session_step, SessionEvent, SessionStep};
use secure_ssh::storage::{
    get_data_dir, get_key_path, get_marker_path, get_public_key_path, get_servers_path,
};
use secure_ssh::watchdog::{
    create_watchdog, LinuxWatchdog, MacOsWatchdog, Platform, UsbWatchdog, WindowsWatchdog,
};

#[test]
fn test_marker_is_authoritative() {
    let wd = LinuxWatchdog::new("/media/stick/app".to_string(), Some("/media/stick/m".to_string()));
    assert!(wd.is_present_from(true, false));
    assert!(!wd.is_present_from(false, true));
}

#[test]
fn test_directory_decides_without_marker() {
    let wd = LinuxWatchdog::new("/media/stick/app".to_string(), None);
    assert!(wd.is_present_from(false, true));
    assert!(!wd.is_present_from(true, false));
}

#[test]
fn test_absence_drives_session_to_device_removed() {
    // Once the monitor has reported "not present" and the flag is set, the
    // very next loop iteration ends with the DeviceRemoved outcome,
    // whatever event arrived with it.
    let wd = MacOsWatchdog::new("/Volumes/STICK/app".to_string(), None);
    let present = wd.is_present_from(false, false);
    assert!(!present);

    let cancelled = !present;
    let step = session_step(cancelled, SessionEvent::RemoteData(vec![1]));
    assert!(matches!(step, SessionStep::EndDeviceRemoved));
    assert!(session_outcome(&step).is_err());
}

#[test]
fn test_linux_removable_paths() {
    assert!(LinuxWatchdog::new("/media/usb/app".to_string(), None).is_removable());
    assert!(LinuxWatchdog::new("/mnt/stick".to_string(), None).is_removable());
    assert!(LinuxWatchdog::new("/run/media/me/stick".to_string(), None).is_removable());
    assert!(!LinuxWatchdog::new("/home/me/app".to_string(), None).is_removable());
}

#[test]
fn test_macos_removable_paths() {
    assert!(MacOsWatchdog::new("/Volumes/STICK/app".to_string(), None).is_removable());
    assert!(!MacOsWatchdog::new("/Users/me/app".to_string(), None).is_removable());
}

#[test]
fn test_windows_drive_prefix() {
    let wd = WindowsWatchdog::new("E:\\tools\\app", None);
    assert_eq!(wd.drive_path, "E:");
    assert!(!wd.is_removable());

    let wd = WindowsWatchdog::new("plain", None);
    assert_eq!(wd.drive_path, "plain");
}

#[test]
fn test_create_watchdog_per_platform() {
    let wd = create_watchdog(Platform::Linux, "/media/usb/app".to_string(), None);
    assert!(wd.is_some());
    let wd = create_watchdog(Platform::MacOs, "/Volumes/S/app".to_string(), None);
    assert!(wd.is_some());
    let wd = create_watchdog(Platform::Windows, "E:\\app".to_string(), None);
    assert!(wd.is_some());
    let wd = create_watchdog(Platform::Other, "/x".to_string(), None);
    assert!(wd.is_none());
}

#[test]
fn test_watchdog_dispatch() {
    let wd = create_watchdog(
        Platform::Linux,
        "/media/usb/app".to_string(),
        Some("/media/usb/app/.m".to_string()),
    )
    .unwrap();
    assert!(wd.marker_path().is_some());
    assert!(wd.is_present_from(true, false));
    assert!(!wd.is_present_from(false, true));
    assert_eq!(wd.watch_path(), "/media/usb/app");
}

#[test]
fn test_file_locations() {
    assert_eq!(get_data_dir("/opt/app"), "/opt/app/data");
    assert_eq!(get_key_path("/opt/app"), "/opt/app/data/key.enc");
    assert_eq!(get_public_key_path("/opt/app"), "/opt/app/data/key.pub");
    assert_eq!(get_servers_path("/opt/app"), "/opt/app/data/servers.enc");
    assert_eq!(get_marker_path("/opt/app"), "/opt/app/.secure-ssh-marker");
}
