use git_open::launch::{LaunchError, Platform};

#[test]
fn platforms_are_told_by_the_name_of_the_system() {
    assert_eq!(Platform::from_os("macos"), Platform::MacOs);
    assert_eq!(Platform::from_os("linux"), Platform::Linux);
    assert_eq!(Platform::from_os("windows"), Platform::Other);
    assert_eq!(Platform::from_os("Linux"), Platform::Other);
    assert_eq!(Platform::from_os(""), Platform::Other);
}

#[test]
fn macos_opens_with_open() {
    assert_eq!(Platform::MacOs.program(None), Ok("open".to_string()));
    assert_eq!(Platform::MacOs.program(Some("chromium".to_string())), Ok("open".to_string()));
}

#[test]
fn linux_opens_with_the_configured_browser_or_firefox() {
    assert_eq!(Platform::Linux.program(None), Ok("firefox".to_string()));
    assert_eq!(Platform::Linux.program(Some("chromium".to_string())), Ok("chromium".to_string()));
}

#[test]
fn other_platforms_are_unsupported() {
    assert_eq!(Platform::Other.program(None), Err(LaunchError::Unsupported));
    assert_eq!(Platform::Other.program(Some("lynx".to_string())), Err(LaunchError::Unsupported));
    assert_eq!(LaunchError::Unsupported.message(), "so far this only works on Mac or Linux");
}
