use polarize_core::permission::{
    check_permission, required_permission, PermissionError, PermissionKind, PermissionState,
    PermissionStatus, ToolKind,
};

#[test]
fn granted_is_usable() {
    assert!(PermissionState::Granted.is_usable());
}

#[test]
fn not_determined_denied_and_restricted_are_not_usable() {
    assert!(!PermissionState::NotDetermined.is_usable());
    assert!(!PermissionState::Denied.is_usable());
    assert!(!PermissionState::Restricted.is_usable());
}

#[test]
fn a_tool_that_needs_no_permission_reports_none() {
    assert_eq!(required_permission(ToolKind::AppLaunch), None);
    assert_eq!(required_permission(ToolKind::AppQuit), None);
    assert_eq!(required_permission(ToolKind::ListDisplays), None);
    assert_eq!(required_permission(ToolKind::ClipboardWrite), None);
    assert_eq!(required_permission(ToolKind::FrontmostApp), None);
    assert_eq!(required_permission(ToolKind::AwaitWorkspaceEvent), None);
}

#[test]
fn a_tool_that_needs_no_permission_always_passes_the_check() {
    let denied = [
        PermissionStatus {
            kind: PermissionKind::Accessibility,
            state: PermissionState::Denied,
        },
        PermissionStatus {
            kind: PermissionKind::ScreenRecording,
            state: PermissionState::Denied,
        },
    ];
    assert!(check_permission(ToolKind::AppLaunch, &denied).is_ok());
    assert!(check_permission(ToolKind::ListDisplays, &[]).is_ok());
}

#[test]
fn list_windows_still_requires_accessibility() {
    assert_eq!(
        required_permission(ToolKind::ListWindows),
        Some(PermissionKind::Accessibility)
    );
}

#[test]
fn screenshot_requires_screen_recording() {
    assert_eq!(
        required_permission(ToolKind::Screenshot),
        Some(PermissionKind::ScreenRecording)
    );
}

#[test]
fn describe_tap_and_keyboard_require_accessibility() {
    assert_eq!(
        required_permission(ToolKind::Describe),
        Some(PermissionKind::Accessibility)
    );
    assert_eq!(
        required_permission(ToolKind::Tap),
        Some(PermissionKind::Accessibility)
    );
    assert_eq!(
        required_permission(ToolKind::Keyboard),
        Some(PermissionKind::Accessibility)
    );
}

#[test]
fn check_permission_passes_when_granted() {
    let statuses = [PermissionStatus {
        kind: PermissionKind::ScreenRecording,
        state: PermissionState::Granted,
    }];
    assert!(check_permission(ToolKind::Screenshot, &statuses).is_ok());
}

#[test]
fn check_permission_fails_when_denied() {
    let statuses = [PermissionStatus {
        kind: PermissionKind::Accessibility,
        state: PermissionState::Denied,
    }];
    let err = check_permission(ToolKind::Tap, &statuses).unwrap_err();
    assert_eq!(
        err,
        PermissionError::NotGranted {
            kind: PermissionKind::Accessibility,
            state: PermissionState::Denied
        }
    );
}

#[test]
fn check_permission_treats_absent_status_as_not_determined() {
    let err = check_permission(ToolKind::Describe, &[]).unwrap_err();
    assert_eq!(
        err,
        PermissionError::NotGranted {
            kind: PermissionKind::Accessibility,
            state: PermissionState::NotDetermined
        }
    );
}

#[test]
fn perform_action_requires_accessibility() {
    assert_eq!(
        required_permission(ToolKind::PerformAction),
        Some(PermissionKind::Accessibility)
    );
}

#[test]
fn check_permission_ignores_unrelated_statuses() {
    let statuses = [PermissionStatus {
        kind: PermissionKind::ScreenRecording,
        state: PermissionState::Granted,
    }];
    let err = check_permission(ToolKind::Tap, &statuses).unwrap_err();
    assert_eq!(
        err.message(),
        "Accessibility permission is NotDetermined, not granted"
    );
}
#[test]
fn the_await_tools_require_accessibility() {
    assert_eq!(
        required_permission(ToolKind::AwaitUiElement),
        Some(PermissionKind::Accessibility)
    );
    assert_eq!(
        required_permission(ToolKind::AwaitScreenIdle),
        Some(PermissionKind::Accessibility)
    );
}

#[test]
fn run_applescript_requires_automation() {
    assert_eq!(
        required_permission(ToolKind::RunAppleScript),
        Some(PermissionKind::Automation)
    );
}

#[test]
fn script_dictionary_needs_no_permission() {
    assert_eq!(required_permission(ToolKind::ScriptDictionary), None);
}

#[test]
fn automation_permission_displays_its_settings_name() {
    assert_eq!(PermissionKind::Automation.name(), "Automation");
}

#[test]
fn find_text_requires_screen_recording_and_adds_no_new_permission() {
    assert_eq!(
        required_permission(ToolKind::FindText),
        Some(PermissionKind::ScreenRecording)
    );
    assert_eq!(
        required_permission(ToolKind::FindText),
        required_permission(ToolKind::Screenshot)
    );
}

#[test]
fn check_permission_reports_automation_by_name() {
    let statuses = [PermissionStatus {
        kind: PermissionKind::Automation,
        state: PermissionState::Denied,
    }];
    let err = check_permission(ToolKind::RunAppleScript, &statuses).unwrap_err();
    assert_eq!(
        err.message(),
        "Automation permission is Denied, not granted"
    );
}

#[test]
fn set_value_requires_accessibility() {
    assert_eq!(
        required_permission(ToolKind::SetValue),
        Some(PermissionKind::Accessibility)
    );
}

#[test]
fn hit_test_requires_accessibility() {
    assert_eq!(
        required_permission(ToolKind::HitTest),
        Some(PermissionKind::Accessibility)
    );
}

#[test]
fn only_the_clipboard_read_needs_a_permission() {
    assert_eq!(
        required_permission(ToolKind::ClipboardRead),
        Some(PermissionKind::Clipboard)
    );
    assert_eq!(required_permission(ToolKind::ClipboardWrite), None);
}

#[test]
fn clipboard_permission_displays_its_own_name() {
    assert_eq!(PermissionKind::Clipboard.name(), "Clipboard");
}

#[test]
fn check_permission_reports_a_refused_clipboard_read() {
    let statuses = [PermissionStatus {
        kind: PermissionKind::Clipboard,
        state: PermissionState::NotDetermined,
    }];
    let err = check_permission(ToolKind::ClipboardRead, &statuses).unwrap_err();
    assert_eq!(
        err.message(),
        "Clipboard permission is NotDetermined, not granted"
    );
}
#[test]
fn both_window_tools_need_accessibility() {
    assert_eq!(
        required_permission(ToolKind::SetWindowFrame),
        Some(PermissionKind::Accessibility)
    );
    assert_eq!(
        required_permission(ToolKind::WindowAction),
        Some(PermissionKind::Accessibility)
    );
}

#[test]
fn record_flow_requires_input_monitoring() {
    assert_eq!(
        required_permission(ToolKind::RecordFlow),
        Some(PermissionKind::InputMonitoring)
    );
}

#[test]
fn record_flow_does_not_reuse_the_accessibility_grant() {
    assert_ne!(
        required_permission(ToolKind::RecordFlow),
        required_permission(ToolKind::Tap)
    );
    assert_ne!(
        required_permission(ToolKind::RecordFlow),
        required_permission(ToolKind::Keyboard)
    );
}

#[test]
fn input_monitoring_displays_its_settings_pane_name() {
    assert_eq!(
        PermissionKind::InputMonitoring.name(),
        "Input Monitoring"
    );
}

#[test]
fn a_granted_accessibility_status_does_not_satisfy_record_flow() {
    let statuses = [PermissionStatus {
        kind: PermissionKind::Accessibility,
        state: PermissionState::Granted,
    }];
    let err = check_permission(ToolKind::RecordFlow, &statuses).unwrap_err();
    assert_eq!(
        err.message(),
        "Input Monitoring permission is NotDetermined, not granted"
    );
}

#[test]
fn a_granted_input_monitoring_status_lets_record_flow_run() {
    let statuses = [PermissionStatus {
        kind: PermissionKind::InputMonitoring,
        state: PermissionState::Granted,
    }];
    assert!(check_permission(ToolKind::RecordFlow, &statuses).is_ok());
}

#[test]
fn a_denied_input_monitoring_status_names_the_pane() {
    let statuses = [PermissionStatus {
        kind: PermissionKind::InputMonitoring,
        state: PermissionState::Denied,
    }];
    let err = check_permission(ToolKind::RecordFlow, &statuses).unwrap_err();
    assert_eq!(
        err.message(),
        "Input Monitoring permission is Denied, not granted"
    );
}
