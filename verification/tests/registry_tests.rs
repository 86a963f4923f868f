use telco_vecchio::application::Application;
use telco_vecchio::common::{Configuration, Context, Tunnel};
use telco_vecchio::email_utils::EmailConfig;
use telco_vecchio::init::InitConfig;
use telco_vecchio::sms_utils::SmsConfig;
use telco_vecchio::ssh_utils::SshConfig;
use telco_vecchio::status::{DeviceStatus, ServiceStatus, Status};
use telco_vecchio::user::User;

fn test_configuration(tunnel_timeout_sec: u64) -> Configuration {
    Configuration {
        users: vec![
            User {
                name: "alice".to_string(),
                phone_number: "+1555".to_string(),
                email: "a@x.com".to_string(),
            },
            User {
                name: "bob".to_string(),
                phone_number: "+1666".to_string(),
                email: "b@x.com".to_string(),
            },
        ],
        applications: vec![Application {
            name: "web".to_string(),
            host_ip: "10.0.0.5".to_string(),
            port: 8080,
            end_point: "/ui".to_string(),
        }],
        sms_config: SmsConfig {
            modem_device: "/dev/ttyUSB3".to_string(),
            qmi_modem_device: "/dev/cdc-wdm0".to_string(),
            qmi_binary_file: "uqmi".to_string(),
            sim_pin: "0000".to_string(),
            sms_send_timeout_sec: 30,
        },
        email_config: EmailConfig {
            binary_file: "sendmail".to_string(),
            sender_alias: "gateway".to_string(),
            server_domain: "mail.example.org".to_string(),
            internet_host: "1.1.1.1".to_string(),
        },
        ssh_config: SshConfig {
            binary_file: "dbclient".to_string(),
            key_file: "/etc/dropbear/key".to_string(),
            service_user: "tunnel".to_string(),
            service_host: "broker.example.org".to_string(),
            tunnel_input_port: 443,
            tunnel_setup_timeout_sec: 20,
            tunnel_timeout_sec,
            tunnel_refresh_period_sec: 60,
        },
        init_config: InitConfig {
            init_status_refresh_period_seconds: 5,
            init_status_refresh_max_retry: 3,
        },
    }
}

fn ready_status() -> Status {
    Status {
        device_status: DeviceStatus::Ready,
        email_service_status: ServiceStatus::Reachable,
        ssh_tunnel_service_status: ServiceStatus::Reachable,
        applications_status: vec![("web".to_string(), ServiceStatus::Reachable)],
    }
}

#[test]
fn references_are_monotonic() {
    let mut ctx = Context::new(test_configuration(100), ready_status());
    let a = ctx.register_tunnel("alice".to_string(), "web".to_string(), 11, 0);
    let b = ctx.register_tunnel("bob".to_string(), "web".to_string(), 12, 0);
    assert_eq!(a, 0);
    assert_eq!(b, 1);
}

#[test]
fn removed_reference_is_unknown_and_never_reused() {
    let mut ctx = Context::new(test_configuration(100), ready_status());
    let a = ctx.register_tunnel("alice".to_string(), "web".to_string(), 11, 0);
    assert!(ctx.remove_tunnel(a).is_some());
    assert!(ctx.remove_tunnel(a).is_none());
    let b = ctx.register_tunnel("alice".to_string(), "web".to_string(), 13, 0);
    assert_ne!(a, b);
}

#[test]
fn expiry_removes_exactly_the_old_entries() {
    let mut ctx = Context::new(test_configuration(100), ready_status());
    let old_id = ctx.register_tunnel("alice".to_string(), "web".to_string(), 11, 0);
    let young_id = ctx.register_tunnel("bob".to_string(), "web".to_string(), 12, 950);
    let removed = ctx.clean_up_expired_tunnels(1000);
    assert_eq!(removed.len(), 1);
    assert_eq!(removed[0].0, old_id);
    assert_eq!(removed[0].1.process, 11);
    assert_eq!(ctx.tunnels.len(), 1);
    assert_eq!(ctx.tunnels[0].0, young_id);
}

#[test]
fn expiry_ignores_entries_from_the_future() {
    let mut ctx = Context::new(test_configuration(100), ready_status());
    ctx.register_tunnel("alice".to_string(), "web".to_string(), 11, 2000);
    let removed = ctx.clean_up_expired_tunnels(1000);
    assert!(removed.is_empty());
    assert_eq!(ctx.tunnels.len(), 1);
}

#[test]
fn expiry_at_the_boundary_keeps_the_entry() {
    let mut ctx = Context::new(test_configuration(100), ready_status());
    ctx.register_tunnel("alice".to_string(), "web".to_string(), 11, 900);
    // age is exactly the timeout: not yet expired
    let removed = ctx.clean_up_expired_tunnels(1000);
    assert!(removed.is_empty());
}

#[test]
fn remove_user_tunnels_takes_only_that_user() {
    let mut ctx = Context::new(test_configuration(100), ready_status());
    ctx.register_tunnel("alice".to_string(), "web".to_string(), 11, 0);
    ctx.register_tunnel("bob".to_string(), "web".to_string(), 12, 0);
    ctx.register_tunnel("alice".to_string(), "db".to_string(), 13, 0);
    let removed = ctx.remove_user_tunnels("alice");
    assert_eq!(removed.len(), 2);
    assert_eq!(removed[0].1.process, 11);
    assert_eq!(removed[1].1.process, 13);
    assert_eq!(ctx.tunnels.len(), 1);
    assert_eq!(ctx.tunnels[0].1.user, "bob");
}

#[test]
fn tunnel_new_keeps_fields() {
    let t = Tunnel::new("alice".to_string(), "web".to_string(), 7, 42);
    assert_eq!(t.user, "alice");
    assert_eq!(t.application, "web");
    assert_eq!(t.process, 7);
    assert_eq!(t.creation_date, 42);
}

#[test]
fn user_tunnel_ids_in_order() {
    let mut ctx = Context::new(test_configuration(100), ready_status());
    ctx.register_tunnel("alice".to_string(), "web".to_string(), 11, 0);
    ctx.register_tunnel("bob".to_string(), "web".to_string(), 12, 0);
    ctx.register_tunnel("alice".to_string(), "db".to_string(), 13, 0);
    assert_eq!(ctx.user_tunnel_ids("alice"), vec![0, 2]);
    assert_eq!(ctx.user_tunnel_ids("carol"), Vec::<u32>::new());
}
