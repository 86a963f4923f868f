use telco_vecchio::application::Application;
use telco_vecchio::common::Error;
use telco_vecchio::init::{init_step, initial_retry_state, InitAction, InitConfig, InitRetryState};
use telco_vecchio::status::{
    application_status, assemble_status, classify_pin_status, device_status_of,
    device_status_text, lte_from_response, render_status, service_status_text,
    sim_lock_from_response, DeviceStatus, QmiProvider, ServiceStatus, Status,
};

fn app(name: &str) -> Application {
    Application {
        name: name.to_string(),
        host_ip: "10.0.0.5".to_string(),
        port: 8080,
        end_point: "/".to_string(),
    }
}

#[test]
fn pin_status_classification() {
    assert_eq!(classify_pin_status("disabled"), Ok(false));
    assert_eq!(classify_pin_status("verified"), Ok(false));
    assert_eq!(classify_pin_status("not_verified"), Ok(true));
    assert_eq!(
        classify_pin_status("exploded"),
        Err(Error::QmiResponseParsingError("unsupported sim status: exploded".to_string()))
    );
}

#[test]
fn sim_lock_read_from_tool_response() {
    assert_eq!(sim_lock_from_response("{\"pin1_status\": \"not_verified\"}"), Ok(true));
    assert_eq!(sim_lock_from_response("{\"pin1_status\": \"disabled\"}"), Ok(false));
    assert_eq!(
        sim_lock_from_response("not json at all"),
        Err(Error::QmiResponseParsingError(
            "cannot read pin1_status from sim state info".to_string()
        ))
    );
    assert_eq!(
        sim_lock_from_response("{\"other\": 1}"),
        Err(Error::QmiResponseParsingError(
            "cannot read pin1_status from sim state info".to_string()
        ))
    );
}

#[test]
fn attachment_read_from_tool_response() {
    assert_eq!(
        lte_from_response("{\"lte\": {\"service_status\": \"available\"}}"),
        Ok(true)
    );
    assert_eq!(
        lte_from_response("{\"lte\": {\"service_status\": \"limited\"}}"),
        Ok(false)
    );
    assert_eq!(
        lte_from_response("{\"lte\": {}}"),
        Err(Error::QmiResponseParsingError(
            "cannot read lte service status from system info".to_string()
        ))
    );
}

#[test]
fn device_status_precedence() {
    assert_eq!(device_status_of(true, true, true), DeviceStatus::SimLocked);
    assert_eq!(device_status_of(false, false, true), DeviceStatus::LteNotConnected);
    assert_eq!(device_status_of(false, true, false), DeviceStatus::InternetUnreachable);
    assert_eq!(device_status_of(false, true, true), DeviceStatus::Ready);
}

#[test]
fn snapshot_fails_fast_when_not_ready() {
    let apps = vec![app("web"), app("db")];
    let st = assemble_status(DeviceStatus::LteNotConnected, true, true, &apps, &Vec::new());
    assert_eq!(st.email_service_status, ServiceStatus::Unreachable);
    assert_eq!(st.ssh_tunnel_service_status, ServiceStatus::Unreachable);
    assert_eq!(st.applications_status.len(), 2);
    assert_eq!(st.applications_status[0], ("web".to_string(), ServiceStatus::Unreachable));
    assert_eq!(st.applications_status[1], ("db".to_string(), ServiceStatus::Unreachable));
}

#[test]
fn snapshot_uses_probes_when_ready() {
    let apps = vec![app("web"), app("db")];
    let st = assemble_status(DeviceStatus::Ready, true, false, &apps, &vec![false, true]);
    assert_eq!(st.device_status, DeviceStatus::Ready);
    assert_eq!(st.email_service_status, ServiceStatus::Reachable);
    assert_eq!(st.ssh_tunnel_service_status, ServiceStatus::Unreachable);
    assert_eq!(st.applications_status[0], ("web".to_string(), ServiceStatus::Unreachable));
    assert_eq!(st.applications_status[1], ("db".to_string(), ServiceStatus::Reachable));
}

#[test]
fn unknown_application_counts_as_unreachable() {
    let st = Status {
        device_status: DeviceStatus::Ready,
        email_service_status: ServiceStatus::Reachable,
        ssh_tunnel_service_status: ServiceStatus::Reachable,
        applications_status: vec![("web".to_string(), ServiceStatus::Reachable)],
    };
    assert_eq!(application_status(&st, "web"), ServiceStatus::Reachable);
    assert_eq!(application_status(&st, "db"), ServiceStatus::Unreachable);
}

#[test]
fn status_rendering_is_exact() {
    let st = Status {
        device_status: DeviceStatus::Ready,
        email_service_status: ServiceStatus::Reachable,
        ssh_tunnel_service_status: ServiceStatus::Unreachable,
        applications_status: vec![
            ("web".to_string(), ServiceStatus::Reachable),
            ("db".to_string(), ServiceStatus::Unreachable),
        ],
    };
    assert_eq!(
        render_status(&st),
        "Device: Ready\nServices: Email: OK - Ssh Tunnel: KO\nApps: web: OK - db: KO"
    );
}

#[test]
fn status_texts() {
    assert_eq!(device_status_text(&DeviceStatus::SimLocked), "SIM Card Locked");
    assert_eq!(device_status_text(&DeviceStatus::LteNotConnected), "Cannot connect to LTE network");
    assert_eq!(device_status_text(&DeviceStatus::InternetUnreachable), "Cannot connect to Internet");
    assert_eq!(device_status_text(&DeviceStatus::Ready), "Ready");
    assert_eq!(service_status_text(&ServiceStatus::Reachable), "OK");
    assert_eq!(service_status_text(&ServiceStatus::Unreachable), "KO");
}

#[test]
fn management_tool_arguments() {
    let provider = QmiProvider {
        qmi_binary: "uqmi".to_string(),
        qmi_device: "/dev/cdc-wdm0".to_string(),
    };
    let args = provider.command_args("--uim-verify-pin1", &vec!["0000".to_string()]);
    assert_eq!(args, vec!["-d", "/dev/cdc-wdm0", "--uim-verify-pin1", "0000"]);
    let args = provider.command_args("--get-system-info", &Vec::new());
    assert_eq!(args, vec!["-d", "/dev/cdc-wdm0", "--get-system-info"]);
}

#[test]
fn startup_machine_grants_one_unlock() {
    let config = InitConfig {
        init_status_refresh_period_seconds: 5,
        init_status_refresh_max_retry: 2,
    };
    let s0 = initial_retry_state(&config);
    assert_eq!(s0, InitRetryState { sim_unlock_performed: false, retries_left: 2 });
    let (s1, a1) = init_step(&s0, &DeviceStatus::SimLocked);
    assert_eq!(a1, InitAction::AttemptSimUnlock);
    assert!(s1.sim_unlock_performed);
    let (_, a2) = init_step(&s1, &DeviceStatus::SimLocked);
    assert_eq!(a2, InitAction::Fatal);
}

#[test]
fn startup_machine_bounds_network_retries() {
    let s0 = InitRetryState { sim_unlock_performed: false, retries_left: 2 };
    let (s1, a1) = init_step(&s0, &DeviceStatus::LteNotConnected);
    assert_eq!(a1, InitAction::RetryAfterSleep);
    assert_eq!(s1.retries_left, 1);
    let (s2, a2) = init_step(&s1, &DeviceStatus::InternetUnreachable);
    assert_eq!(a2, InitAction::RetryAfterSleep);
    assert_eq!(s2.retries_left, 0);
    let (_, a3) = init_step(&s2, &DeviceStatus::LteNotConnected);
    assert_eq!(a3, InitAction::Fatal);
    let (_, a4) = init_step(&s2, &DeviceStatus::Ready);
    assert_eq!(a4, InitAction::Proceed);
}

#[test]
fn deeply_nested_responses_are_refused_unparsed() {
    // a document nested past the limit never reaches the recursive parser
    let deep = format!("{}\"pin1_status\"{}", "[".repeat(5000), "]".repeat(5000));
    assert_eq!(
        sim_lock_from_response(&deep),
        Err(Error::QmiResponseParsingError(
            "cannot read pin1_status from sim state info".to_string()
        ))
    );
    assert_eq!(
        lte_from_response(&deep),
        Err(Error::QmiResponseParsingError(
            "cannot read lte service status from system info".to_string()
        ))
    );
    // brackets inside string values are not structural and stay admitted
    let brackety = format!("{{\"pin1_status\": \"{}\"}}", "[".repeat(200));
    assert_eq!(
        sim_lock_from_response(&brackety),
        Err(Error::QmiResponseParsingError("unsupported sim status: ".to_string() + &"[".repeat(200)))
    );
}
