use ucp::service::{
    ensure_macos, install_launch_agent, launch_agent_installed, launch_target, plist_path,
    render_plist, service_label, show_launch_agent_status, status_lines, uninstall_launch_agent,
    user_launch_domain, xml_escape, LaunchError, LaunchPlace,
};

#[test]
fn launch_domain_uses_logged_in_user() {
    assert_eq!(user_launch_domain("501").unwrap(), "gui/501");
}

#[test]
fn launch_domain_rejects_sudo_root() {
    let error = user_launch_domain("0").unwrap_err().message();
    assert!(error.contains("do not use sudo"));
}

#[test]
fn launch_domain_needs_a_user() {
    assert_eq!(user_launch_domain(""), Err(LaunchError::UnknownUser));
    assert_eq!(
        LaunchError::UnknownUser.message(),
        "Cannot determine current user ID"
    );
    assert_eq!(
        launch_target("gui/501"),
        "gui/501/com.codex.unified-provider-sync"
    );
}

#[test]
fn the_service_is_described_below_the_home_directory() {
    assert_eq!(service_label(), "com.codex.unified-provider-sync");
    assert_eq!(
        plist_path(Some("/Users/me")).unwrap(),
        "/Users/me/Library/LaunchAgents/com.codex.unified-provider-sync.plist"
    );
    assert_eq!(plist_path(None), Err(LaunchError::UnknownHome));
    assert_eq!(
        LaunchError::UnknownHome.message(),
        "Cannot determine home directory"
    );
    assert_eq!(launch_agent_installed(Some("/Users/me"), true), Ok(true));
    assert_eq!(launch_agent_installed(Some("/Users/me"), false), Ok(false));
    assert_eq!(
        launch_agent_installed(None, true),
        Err(LaunchError::UnknownHome)
    );
}

#[test]
fn the_service_needs_macos() {
    assert_eq!(ensure_macos(true, "installing the LaunchAgent"), Ok(()));
    assert_eq!(
        ensure_macos(false, "installing the LaunchAgent"),
        Err("installing the LaunchAgent is only supported on macOS".to_string())
    );
}

#[test]
fn the_description_is_escaped() {
    assert_eq!(
        xml_escape("a&b<c>\"d\"'e'"),
        "a&amp;b&lt;c&gt;&quot;d&quot;&apos;e&apos;"
    );
    let plist = render_plist("/bin/u&p", "/Users/me");
    assert!(plist.starts_with("<?xml version=\"1.0\" encoding=\"UTF-8\"?>\n"));
    assert!(plist.contains("        <string>/bin/u&amp;p</string>\n        <string>sync</string>\n        <string>--auto</string>\n        <string>--refresh-auth</string>\n"));
    assert!(plist.contains("        <string>/Users/me/.codex/auth.json</string>\n        <string>/Users/me/.codex/config.toml</string>\n"));
    assert!(plist.contains("    <key>StartInterval</key>\n    <integer>86400</integer>\n"));
    assert!(plist.contains("    <key>ThrottleInterval</key>\n    <integer>5</integer>\n</dict>\n</plist>\n"));
}

#[test]
fn the_service_is_managed_for_a_user() {
    let place = LaunchPlace {
        domain: "gui/501".to_string(),
        target: "gui/501/com.codex.unified-provider-sync".to_string(),
        plist_path: "/h/Library/LaunchAgents/com.codex.unified-provider-sync.plist".to_string(),
    };
    let (installed, plist) = install_launch_agent(true, "501", Some("/h"), "/bin/ucp").unwrap();
    assert_eq!(installed, place);
    assert_eq!(plist, render_plist("/bin/ucp", "/h"));
    assert_eq!(
        uninstall_launch_agent(true, "501", Some("/h")),
        Ok(LaunchPlace {
            domain: place.domain.clone(),
            target: place.target.clone(),
            plist_path: place.plist_path.clone(),
        })
    );
    assert_eq!(show_launch_agent_status(true, "501", Some("/h")), Ok(place));
    assert_eq!(
        install_launch_agent(false, "0", None, "x"),
        Err("installing the LaunchAgent is only supported on macOS".to_string())
    );
    assert_eq!(
        uninstall_launch_agent(false, "501", None),
        Err("uninstalling the LaunchAgent is only supported on macOS".to_string())
    );
    assert_eq!(
        uninstall_launch_agent(true, "0", None),
        Err(LaunchError::Administrator.message())
    );
    assert_eq!(
        show_launch_agent_status(true, "501", None),
        Err(LaunchError::UnknownHome.message())
    );
    assert_eq!(
        status_lines("/p", true, false).join("|"),
        "LaunchAgent: com.codex.unified-provider-sync|Plist: /p|Installed: yes|Loaded: no"
    );
}
