use kumo::service::{launchd_plist, systemd_unit};

#[test]
fn a_plist_carries_the_captured_path() {
    let plist = launchd_plist(
        "/usr/local/bin/kumo",
        "/tmp/kumo.log",
        Some("/a/bin:/b/bin"),
    );

    assert!(plist.contains("<key>EnvironmentVariables</key>"));
    assert!(plist.contains("<string>/a/bin:/b/bin</string>"));
}

#[test]
fn a_plist_without_a_path_omits_the_environment_block() {
    let plist = launchd_plist("/usr/local/bin/kumo", "/tmp/kumo.log", None);

    assert!(!plist.contains("EnvironmentVariables"));
    assert!(plist.contains("<key>RunAtLoad</key>"));
}

#[test]
fn a_plist_escapes_xml_in_every_interpolated_path() {
    let plist = launchd_plist("/opt/a&b/kumo", "/tmp/<log>", Some("/x&y/bin"));

    assert!(plist.contains("<string>/opt/a&amp;b/kumo</string>"));
    assert!(plist.contains("<string>/tmp/&lt;log&gt;</string>"));
    assert!(plist.contains("<string>/x&amp;y/bin</string>"));
}

#[test]
fn a_unit_carries_the_captured_path() {
    let unit = systemd_unit("/usr/local/bin/kumo", Some("/a/bin:/b/bin"));

    assert!(unit.contains("Environment=PATH=/a/bin:/b/bin\n"));
    assert!(unit.contains("ExecStart=/usr/local/bin/kumo run\n"));
}

#[test]
fn a_unit_without_a_path_omits_the_environment_line() {
    let unit = systemd_unit("/usr/local/bin/kumo", None);

    assert!(!unit.contains("Environment="));
    assert!(unit.contains("Restart=on-failure\n"));
}
