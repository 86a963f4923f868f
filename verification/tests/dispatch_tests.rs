use telco_vecchio::application::Application;
use telco_vecchio::common::{Configuration, Context, Error};
use telco_vecchio::email_utils::{compose_tunnel_email, EmailConfig};
use telco_vecchio::init::InitConfig;
use telco_vecchio::request::{
    complete_open_tunnel, handle_request, reply_for_error, tunnel_access_url, RequestOutcome,
};
use telco_vecchio::sms_utils::SmsConfig;
use telco_vecchio::ssh_utils::SshConfig;
use telco_vecchio::status::{DeviceStatus, ServiceStatus, Status};
use telco_vecchio::user::User;

fn alice() -> User {
    User {
        name: "alice".to_string(),
        phone_number: "+1555".to_string(),
        email: "a@x.com".to_string(),
    }
}

fn test_configuration() -> Configuration {
    Configuration {
        users: vec![alice()],
        applications: vec![Application {
            name: "web".to_string(),
            host_ip: "10.0.0.5".to_string(),
            port: 8080,
            end_point: "/ui".to_string(),
        }],
        sms_config: SmsConfig {
            modem_device: "/dev/ttyUSB3".to_string(),
            qmi_modem_device: "/dev/cdc-wdm0".to_string(),
            qmi_binary_file: "uqmi".to_string(),
            sim_pin: "0000".to_string(),
            sms_send_timeout_sec: 30,
        },
        email_config: EmailConfig {
            binary_file: "sendmail".to_string(),
            sender_alias: "gateway".to_string(),
            server_domain: "mail.example.org".to_string(),
            internet_host: "1.1.1.1".to_string(),
        },
        ssh_config: SshConfig {
            binary_file: "dbclient".to_string(),
            key_file: "/etc/dropbear/key".to_string(),
            service_user: "tunnel".to_string(),
            service_host: "broker.example.org".to_string(),
            tunnel_input_port: 443,
            tunnel_setup_timeout_sec: 20,
            tunnel_timeout_sec: 600,
            tunnel_refresh_period_sec: 60,
        },
        init_config: InitConfig {
            init_status_refresh_period_seconds: 5,
            init_status_refresh_max_retry: 3,
        },
    }
}

fn ready_status() -> Status {
    Status {
        device_status: DeviceStatus::Ready,
        email_service_status: ServiceStatus::Reachable,
        ssh_tunnel_service_status: ServiceStatus::Reachable,
        applications_status: vec![("web".to_string(), ServiceStatus::Reachable)],
    }
}

fn ready_context() -> Context {
    Context::new(test_configuration(), ready_status())
}

#[test]
fn unknown_sender_is_refused_whatever_the_content() {
    let mut ctx = ready_context();
    for body in ["open web", "status", "reboot", "whatever"] {
        let err = handle_request("+9999", body, &mut ctx).unwrap_err();
        assert_eq!(err, Error::SenderNotAllowed("+9999".to_string()));
        // and the reply mapping keeps it silent
        assert!(reply_for_error(&err).is_none());
    }
    assert!(ctx.tunnels.is_empty());
}

#[test]
fn empty_request_is_a_validation_error() {
    let mut ctx = ready_context();
    let err = handle_request("+1555", "  ", &mut ctx).unwrap_err();
    assert_eq!(
        err,
        Error::InvalidRequestError("Cannot read command from request:   ".to_string())
    );
}

#[test]
fn unknown_command_is_named() {
    let mut ctx = ready_context();
    let err = handle_request("+1555", "frobnicate now", &mut ctx).unwrap_err();
    assert_eq!(err, Error::InvalidRequestError("Unknown command: frobnicate".to_string()));
}

#[test]
fn command_word_is_case_insensitive() {
    let mut ctx = ready_context();
    let outcome = handle_request("+1555", "StAtUs", &mut ctx).unwrap();
    assert_eq!(outcome, RequestOutcome::ProbeStatus);
    let outcome = handle_request("+1555", "OPEN web", &mut ctx).unwrap();
    assert!(matches!(outcome, RequestOutcome::OpenTunnel { .. }));
}

#[test]
fn open_unknown_application_never_reaches_setup() {
    let mut ctx = ready_context();
    let err = handle_request("+1555", "open nosuch", &mut ctx).unwrap_err();
    assert_eq!(err, Error::InvalidRequestError("Unknown application: nosuch".to_string()));
    assert!(ctx.tunnels.is_empty());
}

#[test]
fn open_without_application_is_a_validation_error() {
    let mut ctx = ready_context();
    let err = handle_request("+1555", "open", &mut ctx).unwrap_err();
    assert_eq!(err, Error::InvalidRequestError("No application specified: open".to_string()));
}

#[test]
fn open_with_device_not_ready_is_refused_before_setup() {
    let mut ctx = ready_context();
    ctx.status.device_status = DeviceStatus::SimLocked;
    let err = handle_request("+1555", "open web", &mut ctx).unwrap_err();
    assert_eq!(
        err,
        Error::InvalidStatus(
            "Device is not ready - current state is SIM Card Locked".to_string()
        )
    );
    assert!(ctx.tunnels.is_empty());
}

#[test]
fn open_with_unreachable_services_names_the_service() {
    let mut ctx = ready_context();
    ctx.status.email_service_status = ServiceStatus::Unreachable;
    let err = handle_request("+1555", "open web", &mut ctx).unwrap_err();
    assert_eq!(err, Error::InvalidStatus("Email service is not reachable".to_string()));

    let mut ctx = ready_context();
    ctx.status.ssh_tunnel_service_status = ServiceStatus::Unreachable;
    let err = handle_request("+1555", "open web", &mut ctx).unwrap_err();
    assert_eq!(err, Error::InvalidStatus("SSH tunnel service is not reachable".to_string()));

    let mut ctx = ready_context();
    ctx.status.applications_status = vec![("web".to_string(), ServiceStatus::Unreachable)];
    let err = handle_request("+1555", "open web", &mut ctx).unwrap_err();
    assert_eq!(err, Error::InvalidStatus("Application web is not reachable".to_string()));
}

#[test]
fn second_open_for_same_pair_conflicts_naming_the_first() {
    let mut ctx = ready_context();
    let outcome = handle_request("+1555", "open web", &mut ctx).unwrap();
    let (ui, ai) = match outcome {
        RequestOutcome::OpenTunnel { user_index, application_index } => {
            (user_index, application_index)
        },
        other => panic!("expected a tunnel setup, got {:?}", other),
    };
    let (id, _reply) = complete_open_tunnel(&mut ctx, ui, ai, 77, 10);
    assert_eq!(id, 0);
    let err = handle_request("+1555", "open web", &mut ctx).unwrap_err();
    assert_eq!(
        err,
        Error::InvalidRequestError("A tunnel is already open for this application: 0".to_string())
    );
    assert_eq!(ctx.tunnels.len(), 1);
}

#[test]
fn close_paths() {
    let mut ctx = ready_context();
    let outcome = handle_request("+1555", "open web", &mut ctx).unwrap();
    let (ui, ai) = match outcome {
        RequestOutcome::OpenTunnel { user_index, application_index } => {
            (user_index, application_index)
        },
        other => panic!("expected a tunnel setup, got {:?}", other),
    };
    complete_open_tunnel(&mut ctx, ui, ai, 77, 10);

    let err = handle_request("+1555", "close zero", &mut ctx).unwrap_err();
    assert_eq!(err, Error::InvalidRequestError("Invalid tunnel reference: zero".to_string()));

    match handle_request("+1555", "close 0", &mut ctx).unwrap() {
        RequestOutcome::CloseTunnels { reply, closed } => {
            assert_eq!(reply, "Tunnel has been closed");
            assert_eq!(closed.len(), 1);
            assert_eq!(closed[0].0, 0);
            assert_eq!(closed[0].1.process, 77);
        },
        other => panic!("expected a close, got {:?}", other),
    }

    let err = handle_request("+1555", "close 0", &mut ctx).unwrap_err();
    assert_eq!(err, Error::InvalidRequestError("Unknown tunnel reference: 0".to_string()));

    let err = handle_request("+1555", "close", &mut ctx).unwrap_err();
    assert_eq!(err, Error::InvalidRequestError("No open tunnel".to_string()));
}

#[test]
fn close_all_is_plural_for_several() {
    let mut ctx = ready_context();
    ctx.register_tunnel("alice".to_string(), "web".to_string(), 1, 0);
    ctx.register_tunnel("alice".to_string(), "db".to_string(), 2, 0);
    match handle_request("+1555", "close", &mut ctx).unwrap() {
        RequestOutcome::CloseTunnels { reply, closed } => {
            assert_eq!(reply, "Tunnels have been closed");
            assert_eq!(closed.len(), 2);
        },
        other => panic!("expected a close, got {:?}", other),
    }
    assert!(ctx.tunnels.is_empty());
}

#[test]
fn reboot_and_shutdown_outcomes() {
    let mut ctx = ready_context();
    match handle_request("+1555", "reboot", &mut ctx).unwrap() {
        RequestOutcome::Reboot { reply, user_index } => {
            assert_eq!(reply, "Rebooting...");
            assert_eq!(user_index, 0);
        },
        other => panic!("expected a reboot, got {:?}", other),
    }
    match handle_request("+1555", "shutdown", &mut ctx).unwrap() {
        RequestOutcome::Shutdown { reply } => assert_eq!(reply, "Shutting down..."),
        other => panic!("expected a shutdown, got {:?}", other),
    }
}

#[test]
fn technical_errors_get_the_generic_reply() {
    // the notice is fixed and never echoes the internal detail
    let reply = reply_for_error(&Error::SmsSendingError).unwrap();
    assert_eq!(reply, "An error occurred, please retry later");
    let reply =
        reply_for_error(&Error::SshTunnelServiceError("ERR_SECRET_DETAIL".to_string())).unwrap();
    assert_eq!(reply, "An error occurred, please retry later");
    assert!(!reply.contains("ERR_SECRET_DETAIL"));
    let reply = reply_for_error(&Error::IoError("raw io detail".to_string())).unwrap();
    assert_eq!(reply, "An error occurred, please retry later");
    // precondition detail still surfaces
    let reply =
        reply_for_error(&Error::InvalidStatus("Email service is not reachable".to_string()))
            .unwrap();
    assert_eq!(reply, "Email service is not reachable");
}

#[test]
fn error_log_rendering_keeps_the_detail() {
    assert_eq!(Error::IoError("boom".to_string()).text(), "IoError: boom");
    assert_eq!(Error::SmsSendingError.text(), "SmsSendingError");
    assert_eq!(
        Error::SshTunnelServiceError("ERR_X".to_string()).text(),
        "SshTunnelServiceError: ERR_X"
    );
}

#[test]
fn full_tunnel_scenario() {
    // user alice (+1555, a@x.com); application web at 10.0.0.5:8080 with
    // endpoint /ui; preconditions satisfied
    let mut ctx = ready_context();
    let outcome = handle_request("+1555", "open web", &mut ctx).unwrap();
    let (ui, ai) = match outcome {
        RequestOutcome::OpenTunnel { user_index, application_index } => {
            (user_index, application_index)
        },
        other => panic!("expected a tunnel setup, got {:?}", other),
    };

    // the broker assigned a URL; the endpoint is appended and mailed
    let url = tunnel_access_url("https://t.broker.example.org", "/ui");
    assert!(url.ends_with("/ui"));
    let email = compose_tunnel_email(&ctx.configuration.users[ui], "web", &url);
    assert_eq!(email.to, "a@x.com");
    assert_eq!(email.title, "Tunnel URL");
    assert!(email.msg.contains("https://t.broker.example.org/ui"));

    let (id, reply) = complete_open_tunnel(&mut ctx, ui, ai, 77, 10);
    assert_eq!(id, 0);
    assert!(reply.starts_with("Tunnel has been setup, reference is: 0"));

    // close it
    match handle_request("+1555", "close 0", &mut ctx).unwrap() {
        RequestOutcome::CloseTunnels { reply, .. } => {
            assert_eq!(reply, "Tunnel has been closed");
        },
        other => panic!("expected a close, got {:?}", other),
    }

    // a second close of the same reference is a validation error
    let err = handle_request("+1555", "close 0", &mut ctx).unwrap_err();
    assert_eq!(err, Error::InvalidRequestError("Unknown tunnel reference: 0".to_string()));
    assert_eq!(
        reply_for_error(&err).unwrap(),
        "The message you just sent is invalid : Unknown tunnel reference: 0"
    );
}

#[test]
fn expiry_notice_names_the_reference() {
    assert_eq!(
        telco_vecchio::request::expired_tunnel_notice(12),
        "Expired tunnel 12 has been closed"
    );
}

#[test]
fn startup_notice_carries_the_status() {
    let notice = telco_vecchio::init::startup_notice(&ready_status());
    assert_eq!(
        notice,
        "Telco-Vecchio is up.\nDevice: Ready\nServices: Email: OK - Ssh Tunnel: OK\nApps: web: OK"
    );
}

#[test]
fn user_lookup_by_name() {
    let users = vec![alice()];
    assert_eq!(telco_vecchio::request::find_user_by_name(&users, "alice"), Some(0));
    assert_eq!(telco_vecchio::request::find_user_by_name(&users, "bob"), None);
}
