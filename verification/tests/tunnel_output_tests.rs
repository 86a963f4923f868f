use telco_vecchio::email_utils::{email_payload, sendmail_args, EmailConfig, OutgoingEmail};
use telco_vecchio::ssh_utils::{scan_tunnel_output, ssh_tunnel_args, SshConfig, TunnelScan};

fn config() -> SshConfig {
    SshConfig {
        binary_file: "dbclient".to_string(),
        key_file: "/etc/dropbear/key".to_string(),
        service_user: "tunnel".to_string(),
        service_host: "broker.example.org".to_string(),
        tunnel_input_port: 443,
        tunnel_setup_timeout_sec: 20,
        tunnel_timeout_sec: 600,
        tunnel_refresh_period_sec: 60,
    }
}

#[test]
fn tunnel_client_invocation() {
    let args = ssh_tunnel_args(&config(), "10.0.0.5", 8080);
    assert_eq!(
        args,
        vec![
            "-y",
            "-i",
            "/etc/dropbear/key",
            "-R",
            "443:10.0.0.5:8080",
            "tunnel@broker.example.org",
            "http",
        ]
    );
}

#[test]
fn success_line_yields_the_url() {
    let out = "auth ok\nForwarding  https://x7.broker.example.org\nready\n";
    assert_eq!(
        scan_tunnel_output(out),
        TunnelScan::Url("https://x7.broker.example.org".to_string())
    );
}

#[test]
fn split_output_keeps_waiting() {
    assert_eq!(scan_tunnel_output("auth ok\nForwar"), TunnelScan::NoMatch);
    assert_eq!(
        scan_tunnel_output("auth ok\nForwarding  https://x7.bro"),
        TunnelScan::NoMatch
    );
}

#[test]
fn broker_error_token_is_captured() {
    let out = "something went wrong: ERR_NO_CREDIT, closing";
    assert_eq!(
        scan_tunnel_output(out),
        TunnelScan::ServiceError("ERR_NO_CREDIT".to_string())
    );
}

#[test]
fn success_wins_over_error_token() {
    let out = "ERR_IGNORED\nForwarding  https://ok.example.org\n";
    assert_eq!(
        scan_tunnel_output(out),
        TunnelScan::Url("https://ok.example.org".to_string())
    );
}

#[test]
fn tunnel_email_composition() {
    let user = telco_vecchio::user::User {
        name: "alice".to_string(),
        phone_number: "+1555".to_string(),
        email: "a@x.com".to_string(),
    };
    let email = telco_vecchio::email_utils::compose_tunnel_email(
        &user,
        "web",
        "https://x.example.org/ui",
    );
    assert_eq!(email.to, "a@x.com");
    assert_eq!(email.title, "Tunnel URL");
    assert_eq!(
        email.msg,
        "Hello alice !\nHere is the url to access to web:\n\nhttps://x.example.org/ui\n\nHave a nice day!"
    );
}

#[test]
fn mail_binary_invocation() {
    let email = OutgoingEmail {
        to: "a@x.com".to_string(),
        title: "Tunnel URL".to_string(),
        msg: "body".to_string(),
    };
    assert_eq!(email_payload(&email), "Subject: Tunnel URL\n\nbody");
    let config = EmailConfig {
        binary_file: "sendmail".to_string(),
        sender_alias: "gateway".to_string(),
        server_domain: "mail.example.org".to_string(),
        internet_host: "1.1.1.1".to_string(),
    };
    assert_eq!(
        sendmail_args(&config, &"a@x.com".to_string()),
        vec!["-v", "a@x.com", "-F", "gateway"]
    );
}

#[test]
fn forward_spec_renders_negative_numbers() {
    let mut cfg = config();
    cfg.tunnel_input_port = -1;
    let args = ssh_tunnel_args(&cfg, "10.0.0.5", 8080);
    assert_eq!(args[4], "-1:10.0.0.5:8080");
}
