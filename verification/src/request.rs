//! The command dispatcher: authorization by sender number, command parsing,
//! the precondition checks for opening a tunnel, the close paths, and the
//! mapping of errors onto replies. External work (spawning the tunnel client,
//! probing, sending mail, the privileged actions) is requested through the
//! returned outcome and completed by the hosting layer.
use vstd::prelude::*;
use vstd::string::*;

use crate::application::Application;
use crate::common::{
    has_tunnel_id, is_user_app_tunnel, is_user_tunnel, spec_error_text, spec_matching_of,
    spec_remaining_of, Context, Error, Tunnel,
};
use crate::status::{
    application_status, device_status_text, spec_application_status, spec_device_status_text,
    DeviceStatus, ServiceStatus,
};
use crate::strutil::{
    chars_to_string, first_token, lower_chars, next_token, spec_dec, spec_find, spec_lower,
    spec_parse_u32, str_eq, str_to_chars, parse_u32_chars, u32_to_string,
};
use crate::user::User;

verus! {

/// What the hosting layer must do after one message has been handled.
#[derive(Debug, PartialEq)]
pub enum RequestOutcome {
    /// All preconditions hold: spawn the tunnel client for this user and
    /// application, then complete the open with the setup's outcome.
    OpenTunnel { user_index: usize, application_index: usize },
    /// These entries were removed: terminate their processes and send the
    /// reply.
    CloseTunnels { reply: String, closed: Vec<(u32, Tunnel)> },
    /// Resolve a fresh status snapshot, cache it, and reply with its
    /// rendering.
    ProbeStatus,
    /// Record the requester as the next-boot notification target, reply, and
    /// schedule the privileged reboot after a short delay.
    Reboot { reply: String, user_index: usize },
    /// Reply, and schedule the privileged shutdown after a short delay.
    Shutdown { reply: String },
}

pub open spec fn is_phone_user(phone: Seq<char>) -> spec_fn(User) -> bool {
    |u: User| u.phone_number@ == phone
}

pub open spec fn is_named_app(name: Seq<char>) -> spec_fn(Application) -> bool {
    |a: Application| a.name@ == name
}

/// Index of the configured user whose phone number is the sender's, exactly
/// as delivered.
pub open spec fn spec_known_user(users: Seq<User>, sender: Seq<char>) -> Option<int> {
    spec_find(users, 0, is_phone_user(sender))
}

#[verifier::loop_isolation(false)]
pub fn find_user_by_phone(users: &Vec<User>, phone: &str) -> (r: Option<usize>)
    ensures
        match r {
            Some(i) => spec_known_user(users@, phone@) == Some(i as int),
            None => spec_known_user(users@, phone@) is None,
        },
{
    let n: usize = users.len();
    let mut i: usize = 0;
    while i < n
        invariant
            i <= n,
            n == users@.len(),
            spec_find(users@, 0, is_phone_user(phone@)) == spec_find(
                users@,
                i as int,
                is_phone_user(phone@),
            ),
        decreases n - i,
    {
        if str_eq(users[i].phone_number.as_str(), phone) {
            return Some(i);
        }
        i = i + 1;
    }
    None
}

pub open spec fn is_named_user(name: Seq<char>) -> spec_fn(User) -> bool {
    |u: User| u.name@ == name
}

/// Index of the configured user with the given name: the owner a tunnel entry
/// or the next-boot marker refers to.
#[verifier::loop_isolation(false)]
pub fn find_user_by_name(users: &Vec<User>, name: &str) -> (r: Option<usize>)
    ensures
        match r {
            Some(i) => spec_find(users@, 0, is_named_user(name@)) == Some(i as int) && i
                < users@.len() && users@[i as int].name@ == name@,
            None => spec_find(users@, 0, is_named_user(name@)) is None,
        },
{
    let n: usize = users.len();
    let mut i: usize = 0;
    while i < n
        invariant
            i <= n,
            n == users@.len(),
            spec_find(users@, 0, is_named_user(name@)) == spec_find(
                users@,
                i as int,
                is_named_user(name@),
            ),
        decreases n - i,
    {
        if str_eq(users[i].name.as_str(), name) {
            proof {
                crate::strutil::lemma_spec_find_props(users@, 0, is_named_user(name@));
            }
            return Some(i);
        }
        i = i + 1;
    }
    None
}

#[verifier::loop_isolation(false)]
pub fn find_application(applications: &Vec<Application>, name: &str) -> (r: Option<usize>)
    ensures
        match r {
            Some(i) => spec_find(applications@, 0, is_named_app(name@)) == Some(i as int),
            None => spec_find(applications@, 0, is_named_app(name@)) is None,
        },
{
    let n: usize = applications.len();
    let mut i: usize = 0;
    while i < n
        invariant
            i <= n,
            n == applications@.len(),
            spec_find(applications@, 0, is_named_app(name@)) == spec_find(
                applications@,
                i as int,
                is_named_app(name@),
            ),
        decreases n - i,
    {
        if str_eq(applications[i].name.as_str(), name) {
            return Some(i);
        }
        i = i + 1;
    }
    None
}

/// First registry entry owned by the user for the application, if any: the
/// duplicate an open request must be refused over.
#[verifier::loop_isolation(false)]
pub fn find_tunnel_pair(tunnels: &Vec<(u32, Tunnel)>, user: &str, application: &str) -> (r: Option<
    usize,
>)
    ensures
        match r {
            Some(i) => spec_find(tunnels@, 0, is_user_app_tunnel(user@, application@)) == Some(
                i as int,
            ),
            None => spec_find(tunnels@, 0, is_user_app_tunnel(user@, application@)) is None,
        },
{
    let n: usize = tunnels.len();
    let mut i: usize = 0;
    while i < n
        invariant
            i <= n,
            n == tunnels@.len(),
            spec_find(tunnels@, 0, is_user_app_tunnel(user@, application@)) == spec_find(
                tunnels@,
                i as int,
                is_user_app_tunnel(user@, application@),
            ),
        decreases n - i,
    {
        if str_eq(tunnels[i].1.user.as_str(), user) && str_eq(
            tunnels[i].1.application.as_str(),
            application,
        ) {
            return Some(i);
        }
        i = i + 1;
    }
    None
}

// ---------------------------------------------------------------------------
// The dispatch contract
// ---------------------------------------------------------------------------
/// Outcome of an `open` command once the sender is authorized and the command
/// parsed: every precondition is checked in order and each failure names the
/// unmet condition; only with all of them met is a tunnel setup requested.
pub open spec fn spec_open_post(
    pre: Context,
    post: Context,
    ui: int,
    request: Seq<char>,
    rest: Seq<char>,
    r: Result<RequestOutcome, Error>,
) -> bool {
    let user = pre.configuration.users@[ui];
    match first_token(rest) {
        None => r matches Err(Error::InvalidRequestError(m)) && m@ == "No application specified: "@
            + request && post == pre,
        Some(app_tok) => {
            let app_name = app_tok.0;
            if !(pre.status.device_status is Ready) {
                r matches Err(Error::InvalidStatus(m)) && m@
                    == "Device is not ready - current state is "@ + spec_device_status_text(
                    pre.status.device_status,
                ) && post == pre
            } else if !(pre.status.email_service_status is Reachable) {
                r matches Err(Error::InvalidStatus(m)) && m@ == "Email service is not reachable"@
                    && post == pre
            } else if !(pre.status.ssh_tunnel_service_status is Reachable) {
                r matches Err(Error::InvalidStatus(m)) && m@
                    == "SSH tunnel service is not reachable"@ && post == pre
            } else {
                match spec_find(pre.configuration.applications@, 0, is_named_app(app_name)) {
                    None => r matches Err(Error::InvalidRequestError(m)) && m@
                        == "Unknown application: "@ + app_name && post == pre,
                    Some(ai) => {
                        if !(spec_application_status(pre.status.applications_status@, app_name)
                            is Reachable) {
                            r matches Err(Error::InvalidStatus(m)) && m@ == "Application "@
                                + app_name + " is not reachable"@ && post == pre
                        } else {
                            match spec_find(
                                pre.tunnels@,
                                0,
                                is_user_app_tunnel(
                                    user.name@,
                                    pre.configuration.applications@[ai].name@,
                                ),
                            ) {
                                Some(ti) => r matches Err(Error::InvalidRequestError(m)) && m@
                                    == "A tunnel is already open for this application: "@
                                    + spec_dec(pre.tunnels@[ti].0 as nat) && post == pre,
                                None => r matches Ok(o) && o matches RequestOutcome::OpenTunnel {
                                    user_index,
                                    application_index,
                                } && user_index == ui && application_index == ai && post == pre,
                            }
                        }
                    },
                }
            }
        },
    }
}

/// Outcome of a `close` command: a given reference is removed exactly when it
/// exists and is unknown afterwards; without a reference every tunnel of the
/// requester is removed, and owning none is a validation error.
pub open spec fn spec_close_post(
    pre: Context,
    post: Context,
    ui: int,
    rest: Seq<char>,
    r: Result<RequestOutcome, Error>,
) -> bool {
    let user = pre.configuration.users@[ui];
    match first_token(rest) {
        Some(tok_rest) => {
            let tok = tok_rest.0;
            match spec_parse_u32(tok) {
                None => r matches Err(Error::InvalidRequestError(m)) && m@
                    == "Invalid tunnel reference: "@ + tok && post == pre,
                Some(id) => {
                    if has_tunnel_id(pre.tunnels@, id) {
                        r matches Ok(o) && o matches RequestOutcome::CloseTunnels {
                            reply,
                            closed,
                        } && reply@ == "Tunnel has been closed"@ && closed@.len() == 1
                            && closed@[0].0 == id && !has_tunnel_id(post.tunnels@, id) && exists|
                            i: int,
                        |
                            0 <= i < pre.tunnels@.len() && pre.tunnels@[i].0 == id && closed@[0]
                                == pre.tunnels@[i] && post.tunnels@ == pre.tunnels@.remove(i)
                    } else {
                        r matches Err(Error::InvalidRequestError(m)) && m@
                            == "Unknown tunnel reference: "@ + spec_dec(id as nat) && post.tunnels@
                            == pre.tunnels@
                    }
                },
            }
        },
        None => {
            let removed = spec_matching_of(pre.tunnels@, is_user_tunnel(user.name@));
            if removed.len() == 0 {
                r matches Err(Error::InvalidRequestError(m)) && m@ == "No open tunnel"@
                    && post.tunnels@ == pre.tunnels@
            } else {
                r matches Ok(o) && o matches RequestOutcome::CloseTunnels { reply, closed }
                    && closed@ == removed && post.tunnels@ == spec_remaining_of(
                    pre.tunnels@,
                    is_user_tunnel(user.name@),
                ) && reply@ == (if removed.len() > 1 {
                    "Tunnels have been closed"@
                } else {
                    "Tunnel has been closed"@
                })
            }
        },
    }
}

/// The whole per-message contract: a sender outside the configured users is
/// refused (silently, by the reply mapping) whatever the body; an empty or
/// unparseable body, and an unknown command word, are validation errors; the
/// recognized commands behave as their case states. The command word is read
/// case-insensitively.
pub open spec fn spec_handle_request_post(
    pre: Context,
    post: Context,
    sender: Seq<char>,
    request: Seq<char>,
    r: Result<RequestOutcome, Error>,
) -> bool {
    match spec_known_user(pre.configuration.users@, sender) {
        None => r matches Err(Error::SenderNotAllowed(m)) && m@ == sender && post == pre,
        Some(ui) => match first_token(request) {
            None => r matches Err(Error::InvalidRequestError(m)) && m@
                == "Cannot read command from request: "@ + request && post == pre,
            Some(cmd_rest) => {
                let cmd = spec_lower(cmd_rest.0);
                let rest = cmd_rest.1;
                if cmd == "open"@ {
                    spec_open_post(pre, post, ui, request, rest, r)
                } else if cmd == "close"@ {
                    spec_close_post(pre, post, ui, rest, r)
                } else if cmd == "status"@ {
                    r == Ok::<RequestOutcome, Error>(RequestOutcome::ProbeStatus) && post == pre
                } else if cmd == "reboot"@ {
                    r matches Ok(o) && o matches RequestOutcome::Reboot { reply, user_index }
                        && reply@ == "Rebooting..."@ && user_index == ui && post == pre
                } else if cmd == "shutdown"@ {
                    r matches Ok(o) && o matches RequestOutcome::Shutdown { reply } && reply@
                        == "Shutting down..."@ && post == pre
                } else {
                    r matches Err(Error::InvalidRequestError(m)) && m@ == "Unknown command: "@
                        + cmd_rest.0 && post == pre
                }
            },
        },
    }
}

/// Handles one inbound message: authorization, parsing, precondition checks
/// and the registry mutations of the close paths; everything external is
/// handed back as the outcome.
pub fn handle_request(sender: &str, request: &str, context: &mut Context) -> (r: Result<
    RequestOutcome,
    Error,
>)
    requires
        old(context).wf(),
    ensures
        final(context).wf(),
        final(context).configuration == old(context).configuration,
        final(context).status == old(context).status,
        final(context).next_tunnel_id == old(context).next_tunnel_id,
        spec_handle_request_post(*old(context), *final(context), sender@, request@, r),
{
    let user_index: usize = match find_user_by_phone(&context.configuration.users, sender) {
        None => {
            return Err(Error::SenderNotAllowed(String::from_str(sender)));
        },
        Some(i) => i,
    };
    proof {
        crate::strutil::lemma_spec_find_props(
            context.configuration.users@,
            0,
            is_phone_user(sender@),
        );
    }
    let user_name: String = context.configuration.users[user_index].name.clone();
    let req_chars: Vec<char> = str_to_chars(request);
    proof {
        assert(req_chars@.skip(0) =~= req_chars@);
    }
    let (cmd_chars, after_cmd): (Vec<char>, usize) = match next_token(&req_chars, 0) {
        None => {
            let mut m: String = String::from_str("Cannot read command from request: ");
            m.append(request);
            return Err(Error::InvalidRequestError(m));
        },
        Some(p) => p,
    };
    let cmd_lower: Vec<char> = lower_chars(&cmd_chars);
    let cmd: String = chars_to_string(&cmd_lower);
    if str_eq(cmd.as_str(), "open") {
        let app_chars: Vec<char> = match next_token(&req_chars, after_cmd) {
            None => {
                let mut m: String = String::from_str("No application specified: ");
                m.append(request);
                return Err(Error::InvalidRequestError(m));
            },
            Some(p) => p.0,
        };
        let app_name: String = chars_to_string(&app_chars);
        if !matches!(context.status.device_status, DeviceStatus::Ready) {
            let mut m: String = String::from_str("Device is not ready - current state is ");
            let d: String = device_status_text(&context.status.device_status);
            m.append(d.as_str());
            return Err(Error::InvalidStatus(m));
        }
        if !matches!(context.status.email_service_status, ServiceStatus::Reachable) {
            return Err(Error::InvalidStatus(String::from_str("Email service is not reachable")));
        }
        if !matches!(context.status.ssh_tunnel_service_status, ServiceStatus::Reachable) {
            return Err(
                Error::InvalidStatus(String::from_str("SSH tunnel service is not reachable")),
            );
        }
        let application_index: usize = match find_application(
            &context.configuration.applications,
            app_name.as_str(),
        ) {
            None => {
                let mut m: String = String::from_str("Unknown application: ");
                m.append(app_name.as_str());
                return Err(Error::InvalidRequestError(m));
            },
            Some(i) => i,
        };
        proof {
            crate::strutil::lemma_spec_find_props(
                context.configuration.applications@,
                0,
                is_named_app(app_name@),
            );
        }
        if !matches!(application_status(&context.status, app_name.as_str()),
            ServiceStatus::Reachable) {
            let mut m: String = String::from_str("Application ");
            m.append(app_name.as_str());
            m.append(" is not reachable");
            return Err(Error::InvalidStatus(m));
        }
        let app_actual: String = context.configuration.applications[application_index].name.clone();
        if let Some(ti) = find_tunnel_pair(&context.tunnels, user_name.as_str(), app_actual.as_str())
         {
            proof {
                crate::strutil::lemma_spec_find_props(
                    context.tunnels@,
                    0,
                    is_user_app_tunnel(user_name@, app_actual@),
                );
            }
            let existing: u32 = context.tunnels[ti].0;
            let mut m: String = String::from_str("A tunnel is already open for this application: ");
            let id_text: String = u32_to_string(existing);
            m.append(id_text.as_str());
            return Err(Error::InvalidRequestError(m));
        }
        return Ok(RequestOutcome::OpenTunnel { user_index, application_index });
    }
    if str_eq(cmd.as_str(), "close") {
        match next_token(&req_chars, after_cmd) {
            Some(p) => {
                let tok: Vec<char> = p.0;
                match parse_u32_chars(&tok) {
                    None => {
                        let mut m: String = String::from_str("Invalid tunnel reference: ");
                        let t: String = chars_to_string(&tok);
                        m.append(t.as_str());
                        return Err(Error::InvalidRequestError(m));
                    },
                    Some(id) => match context.remove_tunnel(id) {
                        None => {
                            let mut m: String = String::from_str("Unknown tunnel reference: ");
                            let t: String = u32_to_string(id);
                            m.append(t.as_str());
                            return Err(Error::InvalidRequestError(m));
                        },
                        Some(t) => {
                            let mut closed: Vec<(u32, Tunnel)> = Vec::new();
                            closed.push((id, t));
                            return Ok(
                                RequestOutcome::CloseTunnels {
                                    reply: String::from_str("Tunnel has been closed"),
                                    closed,
                                },
                            );
                        },
                    },
                }
            },
            None => {
                let removed: Vec<(u32, Tunnel)> = context.remove_user_tunnels(user_name.as_str());
                if removed.len() == 0 {
                    proof {
                        crate::common::lemma_partition_nothing_matched(
                            old(context).tunnels@,
                            is_user_tunnel(user_name@),
                        );
                        assert(final(context).tunnels@ =~= old(context).tunnels@);
                    }
                    return Err(Error::InvalidRequestError(String::from_str("No open tunnel")));
                }
                let reply: String = if removed.len() > 1 {
                    String::from_str("Tunnels have been closed")
                } else {
                    String::from_str("Tunnel has been closed")
                };
                return Ok(RequestOutcome::CloseTunnels { reply, closed: removed });
            },
        }
    }
    if str_eq(cmd.as_str(), "status") {
        return Ok(RequestOutcome::ProbeStatus);
    }
    if str_eq(cmd.as_str(), "reboot") {
        return Ok(
            RequestOutcome::Reboot { reply: String::from_str("Rebooting..."), user_index },
        );
    }
    if str_eq(cmd.as_str(), "shutdown") {
        return Ok(RequestOutcome::Shutdown { reply: String::from_str("Shutting down...") });
    }
    let mut m: String = String::from_str("Unknown command: ");
    let cmd_orig: String = chars_to_string(&cmd_chars);
    m.append(cmd_orig.as_str());
    Err(Error::InvalidRequestError(m))
}

// ---------------------------------------------------------------------------
// Completing an open once the tunnel client is up
// ---------------------------------------------------------------------------
/// The public access URL: what the broker assigned, extended with the
/// application's endpoint.
pub fn tunnel_access_url(url: &str, end_point: &str) -> (r: String)
    ensures
        r@ == url@ + end_point@,
{
    let mut s: String = String::from_str(url);
    s.append(end_point);
    s
}

/// Registers the freshly set-up tunnel under a new reference and composes the
/// acknowledgement reply; the URL itself never travels in the reply.
pub fn complete_open_tunnel(
    context: &mut Context,
    user_index: usize,
    application_index: usize,
    process: u64,
    now: u64,
) -> (r: (u32, String))
    requires
        old(context).wf(),
        old(context).next_tunnel_id < u32::MAX,
        user_index < old(context).configuration.users@.len(),
        application_index < old(context).configuration.applications@.len(),
    ensures
        final(context).wf(),
        final(context).configuration == old(context).configuration,
        final(context).status == old(context).status,
        final(context).next_tunnel_id == old(context).next_tunnel_id + 1,
        r.0 == old(context).next_tunnel_id,
        final(context).tunnels@ == old(context).tunnels@.push(
            (
                r.0,
                Tunnel {
                    user: old(context).configuration.users@[user_index as int].name,
                    application: old(
                        context,
                    ).configuration.applications@[application_index as int].name,
                    process,
                    creation_date: now,
                },
            ),
        ),
        r.1@ == "Tunnel has been setup, reference is: "@ + spec_dec(r.0 as nat)
            + "\nAccess url has been send to you by mail"@,
{
    let user_name: String = context.configuration.users[user_index].name.clone();
    let application_name: String =
        context.configuration.applications[application_index].name.clone();
    let id: u32 = context.register_tunnel(user_name, application_name, process, now);
    let mut reply: String = String::from_str("Tunnel has been setup, reference is: ");
    let id_text: String = u32_to_string(id);
    reply.append(id_text.as_str());
    reply.append("\nAccess url has been send to you by mail");
    (id, reply)
}

/// The notice sent to a tunnel's owner when the expiry sweep closed it.
pub fn expired_tunnel_notice(id: u32) -> (r: String)
    ensures
        r@ == "Expired tunnel "@ + spec_dec(id as nat) + " has been closed"@,
{
    let mut s: String = String::from_str("Expired tunnel ");
    let id_text: String = u32_to_string(id);
    s.append(id_text.as_str());
    s.append(" has been closed");
    s
}

// ---------------------------------------------------------------------------
// Error-to-reply mapping
// ---------------------------------------------------------------------------
/// How each failure reaches the requester: authorization failures stay
/// silent; validation errors and unmet preconditions surface their detail;
/// everything else gets a fixed generic notice that carries nothing of the
/// error itself — the full detail belongs in the log alone.
pub fn reply_for_error(e: &Error) -> (r: Option<String>)
    ensures
        match *e {
            Error::SenderNotAllowed(_) => r is None,
            Error::InvalidRequestError(m) => r matches Some(s) && s@
                == "The message you just sent is invalid : "@ + m@,
            Error::InvalidStatus(m) => r matches Some(s) && s@ == m@,
            _ => r matches Some(s) && s@ == "An error occurred, please retry later"@,
        },
{
    match e {
        Error::SenderNotAllowed(_) => None,
        Error::InvalidRequestError(m) => {
            let mut s: String = String::from_str("The message you just sent is invalid : ");
            s.append(m.as_str());
            Some(s)
        },
        Error::InvalidStatus(m) => Some(m.clone()),
        _ => Some(String::from_str("An error occurred, please retry later")),
    }
}

} // verus!
