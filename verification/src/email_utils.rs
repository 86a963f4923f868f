//! The outbound email collaborator's data: configuration, the message value,
//! and the exact composition of what is handed to the mail-sending binary.
use vstd::prelude::*;

use crate::user::User;

verus! {

#[derive(Debug, Clone, PartialEq)]
pub struct EmailConfig {
    pub binary_file: String,
    pub sender_alias: String,
    pub server_domain: String,
    /// Address probed for Internet reachability, in textual form.
    pub internet_host: String,
}

#[derive(Debug, Clone, PartialEq)]
pub struct OutgoingEmail {
    pub to: String,
    pub title: String,
    pub msg: String,
}

pub open spec fn spec_tunnel_email_body(
    user_name: Seq<char>,
    application_name: Seq<char>,
    url: Seq<char>,
) -> Seq<char> {
    "Hello "@ + user_name + " !\nHere is the url to access to "@ + application_name + ":\n\n"@
        + url + "\n\nHave a nice day!"@
}

/// The mail that carries a freshly assigned tunnel URL to its owner; the URL
/// travels only here, never in a reply message.
pub fn compose_tunnel_email(user: &User, application_name: &str, url: &str) -> (r: OutgoingEmail)
    ensures
        r.to@ == user.email@,
        r.title@ == "Tunnel URL"@,
        r.msg@ == spec_tunnel_email_body(user.name@, application_name@, url@),
{
    let mut msg: String = String::from_str("Hello ");
    msg.append(user.name.as_str());
    msg.append(" !\nHere is the url to access to ");
    msg.append(application_name);
    msg.append(":\n\n");
    msg.append(url);
    msg.append("\n\nHave a nice day!");
    OutgoingEmail { to: user.email.clone(), title: String::from_str("Tunnel URL"), msg }
}

/// What the mail-sending binary reads on its standard input: a subject header,
/// a blank line, then the body.
pub fn email_payload(email: &OutgoingEmail) -> (r: String)
    ensures
        r@ == "Subject: "@ + email.title@ + "\n\n"@ + email.msg@,
{
    let mut s: String = String::from_str("Subject: ");
    s.append(email.title.as_str());
    s.append("\n\n");
    s.append(email.msg.as_str());
    s
}

/// Argument list for the mail-sending binary invocation.
pub fn sendmail_args(config: &EmailConfig, to: &String) -> (r: Vec<String>)
    ensures
        r@.len() == 4,
        r@[0]@ == "-v"@,
        r@[1]@ == to@,
        r@[2]@ == "-F"@,
        r@[3]@ == config.sender_alias@,
{
    let mut v: Vec<String> = Vec::new();
    v.push(String::from_str("-v"));
    v.push(to.clone());
    v.push(String::from_str("-F"));
    v.push(config.sender_alias.clone());
    v
}

} // verus!
