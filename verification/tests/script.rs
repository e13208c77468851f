use polarize_core::binary64::{Numbers, Real};
use polarize_core::error::PolarizeError;
use polarize_core::permission::{PermissionError, PermissionKind, PermissionState};
use polarize_core::schema::AppIdentifier;
use polarize_core::script::{
    automation_check_from_status, clamp_timeout_ms, parse_osascript_error, perform_run_applescript,
    perform_script_dictionary, redact_source, scan_sdef, scan_sdef_elements,
    script_failure_to_error, truncate_output, wrap_in_tell, AutomationCheck,
    RunAppleScriptRequest, ScriptDictionaryRequest, ScriptFailure, SdefEntry, DEFAULT_TIMEOUT_MS,
    ERR_APP_NOT_RUNNING, ERR_NEEDS_CONSENT, ERR_NOT_AUTHORIZED, MAX_OUTPUT_CHARS,
    MAX_SOURCE_CHARS_IN_ERROR, MAX_TIMEOUT_MS, MIN_TIMEOUT_MS,
};
use polarize_core::traits::{AppSdef, AppleScriptRunner, ScriptOutcome};
use std::cell::RefCell;

struct Ieee;

impl Numbers for Ieee {
    fn sum(&self, a: Real, b: Real) -> Real {
        num(f64::from_bits(a.bits) + f64::from_bits(b.bits))
    }

    fn difference(&self, a: Real, b: Real) -> Real {
        num(f64::from_bits(a.bits) - f64::from_bits(b.bits))
    }

    fn product(&self, a: Real, b: Real) -> Real {
        num(f64::from_bits(a.bits) * f64::from_bits(b.bits))
    }

    fn quotient(&self, a: Real, b: Real) -> Real {
        num(f64::from_bits(a.bits) / f64::from_bits(b.bits))
    }

    fn shown(&self, value: Real) -> String {
        format!("{}", f64::from_bits(value.bits))
    }

    fn shown_to_hundredths(&self, value: Real) -> String {
        format!("{:.2}", f64::from_bits(value.bits))
    }
}

fn num(value: f64) -> Real {
    Real { bits: value.to_bits() }
}

const SDEF_FRAGMENT: &str = r#"<?xml version="1.0" encoding="UTF-8"?>
<dictionary title="Finder Terminology">
  <suite name="Standard Suite" code="????" description="Common commands.">
    <command name="open" code="aevtodoc" description="Open the specified object(s)">
      <direct-parameter type="specifier"/>
    </command>
    <command name="close" code="coreclos" description="Close an object">
    </command>
    <command name="count" code="corecnt"/>
    <class name="window" code="cwin" description="A window">
      <property name="name" code="pnam" type="text"/>
    </class>
    <class name="item" code="cobj" description="An item &amp; its info"/>
  </suite>
  <suite name="Finder Basics" code="fndr">
    <command name="open" code="aevtodoc" description="Open the specified object(s)"/>
    <commandline name="not-a-command" code="xxxx"/>
  </suite>
</dictionary>"#;

fn outcome_ok(stdout: &str) -> ScriptOutcome {
    ScriptOutcome {
        stdout: stdout.to_string(),
        stderr: String::new(),
        exit_code: Some(0),
        timed_out: false,
    }
}

#[derive(Debug, Clone, PartialEq, Eq)]
struct RecordedRun {
    source: String,
    target_app: Option<String>,
    timeout_ms: u64,
}

struct FakeRunner {
    outcome: ScriptOutcome,
    sdef: AppSdef,
    fail_with: Option<String>,
    runs: RefCell<Vec<RecordedRun>>,
    sdef_calls: RefCell<Vec<AppIdentifier>>,
}

impl FakeRunner {
    fn new(outcome: ScriptOutcome) -> Self {
        Self {
            outcome,
            sdef: AppSdef {
                app_name: "Finder".to_string(),
                xml: SDEF_FRAGMENT.to_string(),
            },
            fail_with: None,
            runs: RefCell::new(Vec::new()),
            sdef_calls: RefCell::new(Vec::new()),
        }
    }

    fn failing(message: &str) -> Self {
        let mut runner = Self::new(outcome_ok(""));
        runner.fail_with = Some(message.to_string());
        runner
    }
}

impl AppleScriptRunner for FakeRunner {
    fn run_script(
        &self,
        source: &str,
        target_app: Option<&str>,
        timeout_ms: u64,
    ) -> Result<ScriptOutcome, PolarizeError> {
        self.runs.borrow_mut().push(RecordedRun {
            source: source.to_string(),
            target_app: target_app.map(str::to_string),
            timeout_ms,
        });
        match &self.fail_with {
            Some(message) => Err(PolarizeError::Platform(message.clone())),
            None => Ok(self.outcome.clone()),
        }
    }

    fn app_sdef(&self, app: &AppIdentifier) -> Result<AppSdef, PolarizeError> {
        self.sdef_calls.borrow_mut().push(app.clone());
        match &self.fail_with {
            Some(message) => Err(PolarizeError::Platform(message.clone())),
            None => Ok(self.sdef.clone()),
        }
    }
}

#[test]
fn absent_timeout_becomes_the_default() {
    assert_eq!(clamp_timeout_ms(None), DEFAULT_TIMEOUT_MS);
}

#[test]
fn timeout_clamps_to_the_allowed_range() {
    assert_eq!(clamp_timeout_ms(Some(0)), MIN_TIMEOUT_MS);
    assert_eq!(clamp_timeout_ms(Some(1)), MIN_TIMEOUT_MS);
    assert_eq!(clamp_timeout_ms(Some(u64::MAX)), MAX_TIMEOUT_MS);
}

#[test]
fn timeout_inside_the_range_passes_through() {
    assert_eq!(clamp_timeout_ms(Some(5_000)), 5_000);
}

#[test]
fn short_output_is_not_truncated() {
    let (output, truncated) = truncate_output("hello");
    assert_eq!(output, "hello");
    assert!(!truncated);
}

#[test]
fn long_output_is_cut_to_the_cap() {
    let text = "a".repeat(MAX_OUTPUT_CHARS + 10);
    let (output, truncated) = truncate_output(&text);
    assert_eq!(output.chars().count(), MAX_OUTPUT_CHARS);
    assert!(truncated);
}

#[test]
fn truncation_keeps_whole_characters() {
    let text = "é".repeat(MAX_OUTPUT_CHARS + 10);
    let (output, truncated) = truncate_output(&text);
    assert!(truncated);
    assert_eq!(output.chars().count(), MAX_OUTPUT_CHARS);
    assert!(output.chars().all(|c| c == 'é'));
}

#[test]
fn redaction_removes_the_text_inside_string_literals() {
    let redacted = redact_source("set pw to \"hunter2\"");
    assert!(!redacted.contains("hunter2"), "leaked: {redacted}");
    assert_eq!(redacted, "set pw to \"…\"");
}

#[test]
fn redaction_handles_an_escaped_quote_inside_a_literal() {
    let redacted = redact_source("display dialog \"say \\\" hunter2\"");
    assert!(!redacted.contains("hunter2"), "leaked: {redacted}");
}

#[test]
fn redaction_fails_closed_on_an_unterminated_literal() {
    let redacted = redact_source("set pw to \"hunter2");
    assert!(!redacted.contains("hunter2"), "leaked: {redacted}");
}

#[test]
fn redaction_truncates_and_flattens_a_long_source() {
    let source = format!("tell application \"Finder\"\n{}\nend tell", "x".repeat(500));
    let redacted = redact_source(&source);
    assert!(redacted.chars().count() <= MAX_SOURCE_CHARS_IN_ERROR + 1);
    assert!(!redacted.contains('\n'));
    assert!(redacted.ends_with('…'));
}

#[test]
fn wrapping_puts_the_source_inside_a_tell_block() {
    assert_eq!(
        wrap_in_tell("get name of front window", "Finder"),
        "tell application \"Finder\"\nget name of front window\nend tell"
    );
}

#[test]
fn wrapping_escapes_quotes_and_backslashes_in_the_app_name() {
    let wrapped = wrap_in_tell("beep", "Od\"d\\App");
    assert!(wrapped.starts_with("tell application \"Od\\\"d\\\\App\"\n"));
}

#[test]
fn wrapping_keeps_a_multi_line_source_intact() {
    let wrapped = wrap_in_tell("set a to 1\nset b to 2", "Notes");
    assert!(wrapped.contains("set a to 1\nset b to 2"));
}

#[test]
fn not_authorized_maps_to_an_automation_permission_failure() {
    let stderr =
        "/dev/stdin: execution error: Not authorized to send Apple events to Finder. (-1743)\n";
    assert_eq!(
        parse_osascript_error(stderr),
        ScriptFailure::AutomationNotPermitted {
            state: PermissionState::Denied,
            message: "/dev/stdin: execution error: Not authorized to send Apple events to Finder. (-1743)".to_string(),
        }
    );
}

#[test]
fn needs_consent_maps_to_a_not_determined_automation_failure() {
    let stderr = "execution error: Not authorized. (-1744)";
    assert_eq!(
        parse_osascript_error(stderr),
        ScriptFailure::AutomationNotPermitted {
            state: PermissionState::NotDetermined,
            message: "execution error: Not authorized. (-1744)".to_string(),
        }
    );
}

#[test]
fn app_not_running_maps_to_its_own_failure() {
    let stderr = "execution error: Application isn’t running. (-600)";
    assert!(matches!(
        parse_osascript_error(stderr),
        ScriptFailure::AppNotRunning { .. }
    ));
}

#[test]
fn missing_object_maps_to_its_own_failure() {
    let stderr = "execution error: Finder got an error: Can’t get window 9. (-1728)";
    assert!(matches!(
        parse_osascript_error(stderr),
        ScriptFailure::ObjectNotFound { .. }
    ));
}

#[test]
fn user_cancel_maps_to_its_own_failure() {
    let stderr = "execution error: User canceled. (-128)";
    assert!(matches!(
        parse_osascript_error(stderr),
        ScriptFailure::Cancelled { .. }
    ));
}

#[test]
fn an_unknown_code_stays_a_plain_script_failure() {
    let stderr = "/dev/stdin: syntax error: Expected end of line. (-2741)";
    assert_eq!(
        parse_osascript_error(stderr),
        ScriptFailure::Script {
            code: Some(-2741),
            message: stderr.to_string(),
        }
    );
}

#[test]
fn a_number_that_is_not_an_error_code_stays_a_plain_script_failure() {
    let stderr = "execution error: something odd happened (42)";
    assert_eq!(
        parse_osascript_error(stderr),
        ScriptFailure::Script {
            code: Some(42),
            message: stderr.to_string(),
        }
    );
}

#[test]
fn stderr_with_no_code_stays_a_plain_script_failure() {
    let stderr = "osascript: no such file";
    assert_eq!(
        parse_osascript_error(stderr),
        ScriptFailure::Script {
            code: None,
            message: stderr.to_string(),
        }
    );
}

#[test]
fn trailing_parentheses_that_hold_no_number_are_not_a_code() {
    let stderr = "execution error: bad result (result was 3 items)";
    assert_eq!(
        parse_osascript_error(stderr),
        ScriptFailure::Script {
            code: None,
            message: stderr.to_string(),
        }
    );
}

#[test]
fn empty_stderr_still_produces_a_message() {
    let failure = parse_osascript_error("   \n");
    match failure {
        ScriptFailure::Script { code, message } => {
            assert_eq!(code, None);
            assert!(!message.is_empty());
        }
        other => panic!("expected a plain script failure, got {other:?}"),
    }
}

#[test]
fn the_code_comes_from_the_last_line_of_stderr() {
    let stderr = "warning: something (7)\nexecution error: nope. (-1728)";
    assert!(matches!(
        parse_osascript_error(stderr),
        ScriptFailure::ObjectNotFound { .. }
    ));
}

#[test]
fn an_automation_failure_becomes_a_permission_error() {
    let err = script_failure_to_error(ScriptFailure::AutomationNotPermitted {
        state: PermissionState::Denied,
        message: "nope".to_string(),
    });
    match err {
        PolarizeError::Permission(PermissionError::NotGranted { kind, state }) => {
            assert_eq!(kind, PermissionKind::Automation);
            assert_eq!(state, PermissionState::Denied);
        }
        other => panic!("expected a permission error, got {other:?}"),
    }
}

#[test]
fn an_app_not_running_failure_becomes_an_app_not_found_error() {
    let err = script_failure_to_error(ScriptFailure::AppNotRunning {
        message: "Application isn’t running. (-600)".to_string(),
    });
    assert!(matches!(err, PolarizeError::AppNotFound(_)));
}

#[test]
fn a_plain_script_failure_becomes_a_platform_error_with_its_code() {
    let err = script_failure_to_error(ScriptFailure::Script {
        code: Some(-2741),
        message: "syntax error".to_string(),
    });
    let text = err.message(&Ieee);
    assert!(text.contains("-2741"), "{text}");
    assert!(text.contains("syntax error"), "{text}");
}

#[test]
fn a_missing_object_failure_keeps_its_message() {
    let err = script_failure_to_error(ScriptFailure::ObjectNotFound {
        message: "Can’t get window 9. (-1728)".to_string(),
    });
    assert!(err.message(&Ieee).contains("window 9"));
}

#[test]
fn a_cancel_failure_keeps_its_message() {
    let err = script_failure_to_error(ScriptFailure::Cancelled {
        message: "User canceled. (-128)".to_string(),
    });
    assert!(err.message(&Ieee).contains("canceled"));
}

#[test]
fn a_zero_status_means_the_preflight_passed() {
    assert_eq!(automation_check_from_status(0), AutomationCheck::Permitted);
}

#[test]
fn the_two_refusal_statuses_report_different_permission_states() {
    assert_eq!(
        automation_check_from_status(ERR_NOT_AUTHORIZED),
        AutomationCheck::Refused(PermissionState::Denied)
    );
    assert_eq!(
        automation_check_from_status(ERR_NEEDS_CONSENT),
        AutomationCheck::Refused(PermissionState::NotDetermined)
    );
}

#[test]
fn a_not_running_app_leaves_the_preflight_inconclusive() {
    assert_eq!(
        automation_check_from_status(ERR_APP_NOT_RUNNING),
        AutomationCheck::Inconclusive
    );
}

#[test]
fn an_unknown_status_never_blocks_the_script() {
    assert_eq!(
        automation_check_from_status(-12345),
        AutomationCheck::Inconclusive
    );
}

#[test]
fn the_scan_finds_command_names_and_descriptions() {
    let (commands, _) = scan_sdef(SDEF_FRAGMENT);
    assert_eq!(
        commands,
        vec![
            SdefEntry {
                name: "open".to_string(),
                description: Some("Open the specified object(s)".to_string()),
            },
            SdefEntry {
                name: "close".to_string(),
                description: Some("Close an object".to_string()),
            },
            SdefEntry {
                name: "count".to_string(),
                description: None,
            },
        ]
    );
}

#[test]
fn the_scan_finds_class_names_and_decodes_entities() {
    let (_, classes) = scan_sdef(SDEF_FRAGMENT);
    assert_eq!(
        classes,
        vec![
            SdefEntry {
                name: "window".to_string(),
                description: Some("A window".to_string()),
            },
            SdefEntry {
                name: "item".to_string(),
                description: Some("An item & its info".to_string()),
            },
        ]
    );
}

#[test]
fn the_scan_reports_a_repeated_command_once() {
    let (commands, _) = scan_sdef(SDEF_FRAGMENT);
    assert_eq!(commands.iter().filter(|c| c.name == "open").count(), 1);
}

#[test]
fn the_scan_does_not_match_an_element_whose_name_only_starts_the_same() {
    let (commands, _) = scan_sdef(SDEF_FRAGMENT);
    assert!(commands.iter().all(|c| c.name != "not-a-command"));
}

#[test]
fn the_scan_reads_attributes_in_any_order() {
    let xml = r#"<command description="Say hello" name="greet"/>"#;
    assert_eq!(
        scan_sdef_elements(xml, "command"),
        vec![SdefEntry {
            name: "greet".to_string(),
            description: Some("Say hello".to_string()),
        }]
    );
}

#[test]
fn the_scan_ignores_an_element_with_no_name_attribute() {
    let xml = r#"<command code="xxxx"/><command name="ok"/>"#;
    assert_eq!(
        scan_sdef_elements(xml, "command"),
        vec![SdefEntry {
            name: "ok".to_string(),
            description: None,
        }]
    );
}

#[test]
fn the_scan_is_shallow_and_reads_a_commented_out_command() {
    let xml = r#"<!-- <command name="ghost"/> -->"#;
    assert_eq!(
        scan_sdef_elements(xml, "command"),
        vec![SdefEntry {
            name: "ghost".to_string(),
            description: None,
        }]
    );
}

#[test]
fn a_run_without_a_target_passes_the_source_through_unwrapped() {
    let runner = FakeRunner::new(outcome_ok("hello\n"));
    let request = RunAppleScriptRequest {
        source: "return \"hello\"".to_string(),
        target_app: None,
        timeout_ms: None,
    };
    let response = perform_run_applescript(&runner, &request).unwrap();
    assert_eq!(response.output, "hello");
    assert!(!response.truncated);
    assert_eq!(response.timeout_ms, DEFAULT_TIMEOUT_MS);
    assert_eq!(
        runner.runs.borrow().as_slice(),
        &[RecordedRun {
            source: "return \"hello\"".to_string(),
            target_app: None,
            timeout_ms: DEFAULT_TIMEOUT_MS,
        }]
    );
}

#[test]
fn a_run_with_a_target_wraps_the_source_and_names_the_target() {
    let runner = FakeRunner::new(outcome_ok("Untitled\n"));
    let request = RunAppleScriptRequest {
        source: "get name of front window".to_string(),
        target_app: Some("Finder".to_string()),
        timeout_ms: Some(1_500),
    };
    perform_run_applescript(&runner, &request).unwrap();
    let runs = runner.runs.borrow();
    assert_eq!(runs.len(), 1);
    assert_eq!(
        runs[0].source,
        "tell application \"Finder\"\nget name of front window\nend tell"
    );
    assert_eq!(runs[0].target_app.as_deref(), Some("Finder"));
    assert_eq!(runs[0].timeout_ms, 1_500);
}

#[test]
fn a_blank_target_app_is_treated_as_no_target() {
    let runner = FakeRunner::new(outcome_ok(""));
    let request = RunAppleScriptRequest {
        source: "beep".to_string(),
        target_app: Some("   ".to_string()),
        timeout_ms: None,
    };
    perform_run_applescript(&runner, &request).unwrap();
    let runs = runner.runs.borrow();
    assert_eq!(runs[0].source, "beep");
    assert_eq!(runs[0].target_app, None);
}

#[test]
fn a_run_clamps_an_out_of_range_timeout_before_the_platform_sees_it() {
    let runner = FakeRunner::new(outcome_ok(""));
    let request = RunAppleScriptRequest {
        source: "beep".to_string(),
        target_app: None,
        timeout_ms: Some(u64::MAX),
    };
    let response = perform_run_applescript(&runner, &request).unwrap();
    assert_eq!(response.timeout_ms, MAX_TIMEOUT_MS);
    assert_eq!(runner.runs.borrow()[0].timeout_ms, MAX_TIMEOUT_MS);
}

#[test]
fn a_refused_script_becomes_a_permission_error() {
    let runner = FakeRunner::new(ScriptOutcome {
        stdout: String::new(),
        stderr: "execution error: Not authorized to send Apple events to Finder. (-1743)"
            .to_string(),
        exit_code: Some(1),
        timed_out: false,
    });
    let request = RunAppleScriptRequest {
        source: "beep".to_string(),
        target_app: Some("Finder".to_string()),
        timeout_ms: None,
    };
    let err = perform_run_applescript(&runner, &request).unwrap_err();
    assert!(
        matches!(
            err,
            PolarizeError::Permission(PermissionError::NotGranted {
                kind: PermissionKind::Automation,
                ..
            })
        ),
        "got {err:?}"
    );
}

#[test]
fn a_timed_out_run_reports_the_deadline_and_never_leaks_the_source() {
    let runner = FakeRunner::new(ScriptOutcome {
        stdout: String::new(),
        stderr: String::new(),
        exit_code: None,
        timed_out: true,
    });
    let request = RunAppleScriptRequest {
        source: "set pw to \"hunter2\"\nrepeat\nend repeat".to_string(),
        target_app: None,
        timeout_ms: Some(1_000),
    };
    let err = perform_run_applescript(&runner, &request).unwrap_err();
    let text = err.message(&Ieee);
    assert!(text.contains("1000"), "{text}");
    assert!(!text.contains("hunter2"), "leaked the source: {text}");
}

#[test]
fn a_long_output_comes_back_marked_as_truncated() {
    let runner = FakeRunner::new(outcome_ok(&"z".repeat(MAX_OUTPUT_CHARS + 1)));
    let request = RunAppleScriptRequest {
        source: "beep".to_string(),
        target_app: None,
        timeout_ms: None,
    };
    let response = perform_run_applescript(&runner, &request).unwrap();
    assert!(response.truncated);
    assert_eq!(response.output.chars().count(), MAX_OUTPUT_CHARS);
}

#[test]
fn a_runner_that_cannot_start_reports_its_own_error() {
    let runner = FakeRunner::failing("osascript not found");
    let request = RunAppleScriptRequest {
        source: "beep".to_string(),
        target_app: None,
        timeout_ms: None,
    };
    let err = perform_run_applescript(&runner, &request).unwrap_err();
    assert!(err.message(&Ieee).contains("osascript not found"));
}

#[test]
fn the_dictionary_tool_returns_scanned_verbs_for_the_named_app() {
    let runner = FakeRunner::new(outcome_ok(""));
    let request = ScriptDictionaryRequest {
        app: AppIdentifier {
            bundle_id: Some("com.apple.finder".to_string()),
            app_name: None,
        },
    };
    let response = perform_script_dictionary(&runner, &request).unwrap();
    assert_eq!(response.app_name, "Finder");
    assert_eq!(
        response
            .commands
            .iter()
            .map(|c| c.name.as_str())
            .collect::<Vec<_>>(),
        vec!["open", "close", "count"]
    );
    assert_eq!(response.classes.len(), 2);
    assert_eq!(runner.sdef_calls.borrow().len(), 1);
    assert_eq!(
        runner.sdef_calls.borrow()[0].bundle_id.as_deref(),
        Some("com.apple.finder")
    );
}

#[test]
fn the_dictionary_tool_reports_a_runner_error() {
    let runner = FakeRunner::failing("sdef failed");
    let request = ScriptDictionaryRequest {
        app: AppIdentifier::default(),
    };
    let err = perform_script_dictionary(&runner, &request).unwrap_err();
    assert!(err.message(&Ieee).contains("sdef failed"));
}
