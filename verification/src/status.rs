//! The status resolver's data and decisions: classification of the
//! management tool's responses, the short-circuit composition of a status
//! snapshot, and its textual rendering for the `status` reply.
use vstd::prelude::*;
use vstd::string::*;

use crate::application::Application;
use crate::common::Error;
use crate::strutil::{spec_find, str_eq};

verus! {

#[derive(Debug, Clone, Copy, PartialEq, Eq, Structural)]
pub enum ServiceStatus {
    Reachable,
    Unreachable,
}

#[derive(Debug, Clone, Copy, PartialEq, Eq, Structural)]
pub enum DeviceStatus {
    SimLocked,
    LteNotConnected,
    InternetUnreachable,
    Ready,
}

/// A point-in-time snapshot: the device's own state, the two named external
/// services, and one entry per configured application.
#[derive(Debug, Clone, PartialEq)]
pub struct Status {
    pub device_status: DeviceStatus,
    pub email_service_status: ServiceStatus,
    pub ssh_tunnel_service_status: ServiceStatus,
    pub applications_status: Vec<(String, ServiceStatus)>,
}

/// The management-tool invocation target: the tool binary and the device it
/// drives. Running the tool is the hosting layer's business; the argument
/// lists and the response classification are decided here.
pub struct QmiProvider {
    pub qmi_binary: String,
    pub qmi_device: String,
}

impl QmiProvider {
    /// Argument list for one management-tool invocation: the device selector
    /// followed by the sub-command and its arguments.
    pub fn command_args(&self, command: &str, command_args: &Vec<String>) -> (r: Vec<String>)
        ensures
            r@.len() == 3 + command_args@.len(),
            r@[0]@ == "-d"@,
            r@[1]@ == self.qmi_device@,
            r@[2]@ == command@,
            forall|i: int| 0 <= i < command_args@.len() ==> r@[3 + i]@ == command_args@[i]@,
    {
        let mut v: Vec<String> = Vec::new();
        v.push(String::from_str("-d"));
        v.push(self.qmi_device.clone());
        v.push(String::from_str(command));
        let n: usize = command_args.len();
        let mut i: usize = 0;
        while i < n
            invariant
                i <= n,
                n == command_args@.len(),
                v@.len() == 3 + i,
                v@[0]@ == "-d"@,
                v@[1]@ == self.qmi_device@,
                v@[2]@ == command@,
                forall|j: int| 0 <= j < i ==> v@[3 + j]@ == command_args@[j]@,
            decreases n - i,
        {
            v.push(command_args[i].clone());
            i = i + 1;
        }
        v
    }
}

// ---------------------------------------------------------------------------
// Management-tool response fields (read through tinyjson)
// ---------------------------------------------------------------------------
/// Deepest structural nesting admitted in a tool response before it is handed
/// to the JSON parser, which recurses once per level.
pub const JSON_NESTING_LIMIT: usize = 64;

/// Walks the text as the JSON lexer would: outside string literals an opening
/// bracket or brace raises the depth and a closing one lowers it; inside a
/// string a backslash shields the next character and an unshielded quote ends
/// it. True exactly when the depth never exceeds `bound`. Brackets that only
/// look structural (inside what the parser would reject) can raise this depth,
/// never lower it, so the scan bounds the parser's recursion from above.
pub open spec fn spec_depth_scan(
    s: Seq<char>,
    i: int,
    depth: int,
    in_string: bool,
    escaped: bool,
    bound: int,
) -> bool
    decreases s.len() - i,
{
    if i < 0 || i >= s.len() {
        true
    } else if in_string {
        if escaped {
            spec_depth_scan(s, i + 1, depth, true, false, bound)
        } else if s[i] == '\\' {
            spec_depth_scan(s, i + 1, depth, true, true, bound)
        } else if s[i] == '"' {
            spec_depth_scan(s, i + 1, depth, false, false, bound)
        } else {
            spec_depth_scan(s, i + 1, depth, true, false, bound)
        }
    } else if s[i] == '"' {
        spec_depth_scan(s, i + 1, depth, true, false, bound)
    } else if s[i] == '[' || s[i] == '{' {
        depth < bound && spec_depth_scan(s, i + 1, depth + 1, false, false, bound)
    } else if s[i] == ']' || s[i] == '}' {
        spec_depth_scan(
            s,
            i + 1,
            if depth > 0 {
                depth - 1
            } else {
                0
            },
            false,
            false,
            bound,
        )
    } else {
        spec_depth_scan(s, i + 1, depth, false, false, bound)
    }
}

pub open spec fn spec_json_depth_ok(s: Seq<char>, bound: int) -> bool {
    spec_depth_scan(s, 0, 0, false, false, bound)
}

/// Whether the text's structural nesting stays within `bound`; every tool
/// response passes this guard before it reaches the JSON parser.
#[verifier::loop_isolation(false)]
pub fn json_depth_within(text: &str, bound: usize) -> (r: bool)
    ensures
        r == spec_json_depth_ok(text@, bound as int),
{
    let chars: Vec<char> = crate::strutil::str_to_chars(text);
    let n: usize = chars.len();
    let mut depth: usize = 0;
    let mut in_string: bool = false;
    let mut escaped: bool = false;
    let mut i: usize = 0;
    while i < n
        invariant
            i <= n,
            n == chars@.len(),
            depth <= bound,
            !in_string ==> !escaped,
            spec_json_depth_ok(text@, bound as int) == spec_depth_scan(
                chars@,
                i as int,
                depth as int,
                in_string,
                escaped,
                bound as int,
            ),
        decreases n - i,
    {
        let c: char = chars[i];
        if in_string {
            if escaped {
                escaped = false;
            } else if c == '\\' {
                escaped = true;
            } else if c == '"' {
                in_string = false;
            }
        } else {
            if c == '"' {
                in_string = true;
            } else if c == '[' || c == '{' {
                if depth >= bound {
                    return false;
                }
                depth = depth + 1;
            } else if c == ']' || c == '}' {
                if depth > 0 {
                    depth = depth - 1;
                }
            }
        }
        i = i + 1;
    }
    true
}

/// String value of the named top-level field of a JSON document, when the
/// document parses, its top level is an object, the field exists and holds a
/// string.
pub uninterp spec fn json_string_field(text: Seq<char>, key: Seq<char>) -> Option<Seq<char>>;

/// As `json_string_field`, one object level deeper.
pub uninterp spec fn json_nested_string_field(
    text: Seq<char>,
    outer: Seq<char>,
    key: Seq<char>,
) -> Option<Seq<char>>;

/// Relies on tinyjson (`str::parse` to `JsonValue`, `JsonValue::get`,
/// `HashMap::get`): reads the string value of a top-level field of a JSON
/// document; the result is a function of the document and the key alone. The
/// parser recurses once per nesting level with no bound of its own, so only
/// texts the depth scan admits may reach it.
#[verifier::external_body]
fn json_top_level_string(text: &str, key: &str) -> (r: Option<String>)
    requires
        spec_json_depth_ok(text@, JSON_NESTING_LIMIT as int),
    ensures
        r is Some <==> json_string_field(text@, key@) is Some,
        r is Some ==> r.unwrap()@ == json_string_field(text@, key@).unwrap(),
{
    let json: tinyjson::JsonValue = text.parse().ok()?;
    let map: &std::collections::HashMap<String, tinyjson::JsonValue> = json.get()?;
    let value: &String = map.get(key)?.get()?;
    Some(value.clone())
}

/// Relies on tinyjson (`str::parse` to `JsonValue`, `JsonValue::get`,
/// `HashMap::get`): reads the string value of a field nested one object level
/// down; the result is a function of the document and the keys alone. As
/// above, only texts the depth scan admits may reach the parser.
#[verifier::external_body]
fn json_nested_string(text: &str, outer: &str, key: &str) -> (r: Option<String>)
    requires
        spec_json_depth_ok(text@, JSON_NESTING_LIMIT as int),
    ensures
        r is Some <==> json_nested_string_field(text@, outer@, key@) is Some,
        r is Some ==> r.unwrap()@ == json_nested_string_field(text@, outer@, key@).unwrap(),
{
    let json: tinyjson::JsonValue = text.parse().ok()?;
    let map: &std::collections::HashMap<String, tinyjson::JsonValue> = json.get()?;
    let inner: &std::collections::HashMap<String, tinyjson::JsonValue> = map.get(outer)?.get()?;
    let value: &String = inner.get(key)?.get()?;
    Some(value.clone())
}

// ---------------------------------------------------------------------------
// Classification
// ---------------------------------------------------------------------------
/// The SIM lock indicator's meaning: `disabled` and `verified` mean unlocked,
/// `not_verified` means locked, anything else is a parse error carrying this
/// message.
pub open spec fn spec_sim_lock_class(s: Seq<char>) -> Result<bool, Seq<char>> {
    if s == "disabled"@ || s == "verified"@ {
        Ok(false)
    } else if s == "not_verified"@ {
        Ok(true)
    } else {
        Err("unsupported sim status: "@ + s)
    }
}

pub fn classify_pin_status(pin_status: &str) -> (r: Result<bool, Error>)
    ensures
        match spec_sim_lock_class(pin_status@) {
            Ok(b) => r == Ok::<bool, Error>(b),
            Err(m) => r matches Err(e) && e matches Error::QmiResponseParsingError(t) && t@ == m,
        },
{
    if str_eq(pin_status, "disabled") || str_eq(pin_status, "verified") {
        Ok(false)
    } else if str_eq(pin_status, "not_verified") {
        Ok(true)
    } else {
        let mut m: String = String::from_str("unsupported sim status: ");
        m.append(pin_status);
        Err(Error::QmiResponseParsingError(m))
    }
}

/// Whether the SIM is locked, read from the sim-state response of the
/// management tool. A response nested deeper than the parser may safely take
/// is refused as unparseable without touching it.
pub fn sim_lock_from_response(response: &str) -> (r: Result<bool, Error>)
    ensures
        !spec_json_depth_ok(response@, JSON_NESTING_LIMIT as int) ==> (r matches Err(e)
            && e matches Error::QmiResponseParsingError(t) && t@
            == "cannot read pin1_status from sim state info"@),
        spec_json_depth_ok(response@, JSON_NESTING_LIMIT as int) ==> match json_string_field(
            response@,
            "pin1_status"@,
        ) {
            None => r matches Err(e) && e matches Error::QmiResponseParsingError(t) && t@
                == "cannot read pin1_status from sim state info"@,
            Some(s) => match spec_sim_lock_class(s) {
                Ok(b) => r == Ok::<bool, Error>(b),
                Err(m) => r matches Err(e) && e matches Error::QmiResponseParsingError(t) && t@
                    == m,
            },
        },
{
    if !json_depth_within(response, JSON_NESTING_LIMIT) {
        return Err(
            Error::QmiResponseParsingError(
                String::from_str("cannot read pin1_status from sim state info"),
            ),
        );
    }
    match json_top_level_string(response, "pin1_status") {
        None => Err(
            Error::QmiResponseParsingError(
                String::from_str("cannot read pin1_status from sim state info"),
            ),
        ),
        Some(s) => classify_pin_status(s.as_str()),
    }
}

/// Whether the device is attached, read from the system-info response of the
/// management tool: attached exactly when the service status is `available`.
/// A response nested deeper than the parser may safely take is refused as
/// unparseable without touching it.
pub fn lte_from_response(response: &str) -> (r: Result<bool, Error>)
    ensures
        !spec_json_depth_ok(response@, JSON_NESTING_LIMIT as int) ==> (r matches Err(e)
            && e matches Error::QmiResponseParsingError(t) && t@
            == "cannot read lte service status from system info"@),
        spec_json_depth_ok(response@, JSON_NESTING_LIMIT as int) ==> match json_nested_string_field(
            response@,
            "lte"@,
            "service_status"@,
        ) {
            None => r matches Err(e) && e matches Error::QmiResponseParsingError(t) && t@
                == "cannot read lte service status from system info"@,
            Some(s) => r == Ok::<bool, Error>(s == "available"@),
        },
{
    if !json_depth_within(response, JSON_NESTING_LIMIT) {
        return Err(
            Error::QmiResponseParsingError(
                String::from_str("cannot read lte service status from system info"),
            ),
        );
    }
    match json_nested_string(response, "lte", "service_status") {
        None => Err(
            Error::QmiResponseParsingError(
                String::from_str("cannot read lte service status from system info"),
            ),
        ),
        Some(s) => Ok(str_eq(s.as_str(), "available")),
    }
}

/// The device status implied by the three probes, checked in order: SIM lock
/// first, then attachment, then Internet reachability.
pub open spec fn spec_device_status_of(
    sim_locked: bool,
    lte_connected: bool,
    internet_reachable: bool,
) -> DeviceStatus {
    if sim_locked {
        DeviceStatus::SimLocked
    } else if !lte_connected {
        DeviceStatus::LteNotConnected
    } else if !internet_reachable {
        DeviceStatus::InternetUnreachable
    } else {
        DeviceStatus::Ready
    }
}

pub fn device_status_of(sim_locked: bool, lte_connected: bool, internet_reachable: bool) -> (r:
    DeviceStatus)
    ensures
        r == spec_device_status_of(sim_locked, lte_connected, internet_reachable),
{
    if sim_locked {
        DeviceStatus::SimLocked
    } else if !lte_connected {
        DeviceStatus::LteNotConnected
    } else if !internet_reachable {
        DeviceStatus::InternetUnreachable
    } else {
        DeviceStatus::Ready
    }
}

// ---------------------------------------------------------------------------
// Snapshot assembly
// ---------------------------------------------------------------------------
/// Builds the snapshot from the device status and the probe outcomes. Fail
/// fast: when the device is not ready, every service and every application is
/// reported unreachable and the probe outcomes are ignored.
#[verifier::loop_isolation(false)]
pub fn assemble_status(
    device_status: DeviceStatus,
    email_reachable: bool,
    ssh_reachable: bool,
    applications: &Vec<Application>,
    application_reachable: &Vec<bool>,
) -> (r: Status)
    requires
        device_status is Ready ==> application_reachable@.len() == applications@.len(),
    ensures
        r.device_status == device_status,
        r.email_service_status == (if device_status is Ready && email_reachable {
            ServiceStatus::Reachable
        } else {
            ServiceStatus::Unreachable
        }),
        r.ssh_tunnel_service_status == (if device_status is Ready && ssh_reachable {
            ServiceStatus::Reachable
        } else {
            ServiceStatus::Unreachable
        }),
        r.applications_status@.len() == applications@.len(),
        forall|i: int|
            0 <= i < applications@.len() ==> #[trigger] r.applications_status@[i].0@
                == applications@[i].name@,
        forall|i: int|
            0 <= i < applications@.len() ==> #[trigger] r.applications_status@[i].1 == (
            if device_status is Ready && application_reachable@[i] {
                ServiceStatus::Reachable
            } else {
                ServiceStatus::Unreachable
            }),
{
    let ready: bool = matches!(device_status, DeviceStatus::Ready);
    let mut entries: Vec<(String, ServiceStatus)> = Vec::new();
    let n: usize = applications.len();
    let mut i: usize = 0;
    while i < n
        invariant
            i <= n,
            n == applications@.len(),
            ready == (device_status is Ready),
            entries@.len() == i,
            forall|j: int| 0 <= j < i ==> #[trigger] entries@[j].0@ == applications@[j].name@,
            forall|j: int|
                0 <= j < i ==> #[trigger] entries@[j].1 == (if device_status is Ready
                    && application_reachable@[j] {
                    ServiceStatus::Reachable
                } else {
                    ServiceStatus::Unreachable
                }),
        decreases n - i,
    {
        let reachable: bool = ready && application_reachable[i];
        let st: ServiceStatus = if reachable {
            ServiceStatus::Reachable
        } else {
            ServiceStatus::Unreachable
        };
        entries.push((applications[i].name.clone(), st));
        i = i + 1;
    }
    Status {
        device_status,
        email_service_status: if ready && email_reachable {
            ServiceStatus::Reachable
        } else {
            ServiceStatus::Unreachable
        },
        ssh_tunnel_service_status: if ready && ssh_reachable {
            ServiceStatus::Reachable
        } else {
            ServiceStatus::Unreachable
        },
        applications_status: entries,
    }
}

/// Reachability of the named application in the snapshot; an application
/// without an entry counts as unreachable.
pub open spec fn is_named_entry(name: Seq<char>) -> spec_fn((String, ServiceStatus)) -> bool {
    |e: (String, ServiceStatus)| e.0@ == name
}

pub open spec fn spec_application_status(
    entries: Seq<(String, ServiceStatus)>,
    name: Seq<char>,
) -> ServiceStatus {
    match spec_find(entries, 0, is_named_entry(name)) {
        None => ServiceStatus::Unreachable,
        Some(i) => entries[i].1,
    }
}

#[verifier::loop_isolation(false)]
pub fn application_status(status: &Status, name: &str) -> (r: ServiceStatus)
    ensures
        r == spec_application_status(status.applications_status@, name@),
{
    let entries: &Vec<(String, ServiceStatus)> = &status.applications_status;
    let n: usize = entries.len();
    let mut i: usize = 0;
    while i < n
        invariant
            i <= n,
            n == entries@.len(),
            spec_find(entries@, 0, is_named_entry(name@)) == spec_find(
                entries@,
                i as int,
                is_named_entry(name@),
            ),
        decreases n - i,
    {
        if str_eq(entries[i].0.as_str(), name) {
            return entries[i].1;
        }
        i = i + 1;
    }
    ServiceStatus::Unreachable
}

// ---------------------------------------------------------------------------
// Rendering
// ---------------------------------------------------------------------------
pub open spec fn spec_device_status_text(d: DeviceStatus) -> Seq<char> {
    match d {
        DeviceStatus::SimLocked => "SIM Card Locked"@,
        DeviceStatus::LteNotConnected => "Cannot connect to LTE network"@,
        DeviceStatus::InternetUnreachable => "Cannot connect to Internet"@,
        DeviceStatus::Ready => "Ready"@,
    }
}

pub fn device_status_text(d: &DeviceStatus) -> (r: String)
    ensures
        r@ == spec_device_status_text(*d),
{
    match d {
        DeviceStatus::SimLocked => String::from_str("SIM Card Locked"),
        DeviceStatus::LteNotConnected => String::from_str("Cannot connect to LTE network"),
        DeviceStatus::InternetUnreachable => String::from_str("Cannot connect to Internet"),
        DeviceStatus::Ready => String::from_str("Ready"),
    }
}

pub open spec fn spec_service_status_text(s: ServiceStatus) -> Seq<char> {
    match s {
        ServiceStatus::Reachable => "OK"@,
        ServiceStatus::Unreachable => "KO"@,
    }
}

pub fn service_status_text(s: &ServiceStatus) -> (r: String)
    ensures
        r@ == spec_service_status_text(*s),
{
    match s {
        ServiceStatus::Reachable => String::from_str("OK"),
        ServiceStatus::Unreachable => String::from_str("KO"),
    }
}

pub open spec fn spec_app_entry_text(e: (String, ServiceStatus)) -> Seq<char> {
    e.0@ + ": "@ + spec_service_status_text(e.1)
}

/// The per-application reachability list, entries separated by " - ".
pub open spec fn spec_apps_text(entries: Seq<(String, ServiceStatus)>) -> Seq<char>
    decreases entries.len(),
{
    if entries.len() == 0 {
        Seq::empty()
    } else if entries.len() == 1 {
        spec_app_entry_text(entries[0])
    } else {
        spec_apps_text(entries.drop_last()) + " - "@ + spec_app_entry_text(entries.last())
    }
}

pub open spec fn spec_render_status(st: Status) -> Seq<char> {
    "Device: "@ + spec_device_status_text(st.device_status) + "\n"@ + "Services: Email: "@
        + spec_service_status_text(st.email_service_status) + " - Ssh Tunnel: "@
        + spec_service_status_text(st.ssh_tunnel_service_status) + "\n"@ + "Apps: "@
        + spec_apps_text(st.applications_status@)
}

/// The `status` reply: a device line, a services line, and the application
/// list.
#[verifier::loop_isolation(false)]
pub fn render_status(status: &Status) -> (r: String)
    ensures
        r@ == spec_render_status(*status),
{
    let mut s: String = String::from_str("Device: ");
    let device: String = device_status_text(&status.device_status);
    s.append(device.as_str());
    s.append("\n");
    s.append("Services: Email: ");
    let email: String = service_status_text(&status.email_service_status);
    s.append(email.as_str());
    s.append(" - Ssh Tunnel: ");
    let ssh: String = service_status_text(&status.ssh_tunnel_service_status);
    s.append(ssh.as_str());
    s.append("\n");
    s.append("Apps: ");
    let entries: &Vec<(String, ServiceStatus)> = &status.applications_status;
    let n: usize = entries.len();
    let mut apps: String = String::new();
    let mut i: usize = 0;
    while i < n
        invariant
            i <= n,
            n == entries@.len(),
            apps@ == spec_apps_text(entries@.take(i as int)),
        decreases n - i,
    {
        if i > 0 {
            apps.append(" - ");
        }
        apps.append(entries[i].0.as_str());
        apps.append(": ");
        let st: String = service_status_text(&entries[i].1);
        apps.append(st.as_str());
        proof {
            assert(entries@.take(i as int + 1).drop_last() =~= entries@.take(i as int));
            assert(entries@.take(i as int + 1).last() == entries@[i as int]);
            if i == 0 {
                assert(apps@ =~= spec_apps_text(entries@.take(1)));
            } else {
                assert(apps@ =~= spec_apps_text(entries@.take(i as int + 1)));
            }
        }
        i = i + 1;
    }
    proof {
        assert(entries@.take(n as int) =~= entries@);
    }
    s.append(apps.as_str());
    proof {
        assert(s@ =~= spec_render_status(*status));
    }
    s
}

} // verus!
