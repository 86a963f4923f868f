//! Shared core state: the error kinds every subsystem classifies into, the
//! tunnel registry with its strictly monotonic reference allocator, and the
//! daemon context tying configuration, cached status and live tunnels together.
use vstd::prelude::*;
use vstd::string::*;

use crate::application::Application;
use crate::email_utils::EmailConfig;
use crate::init::InitConfig;
use crate::sms_utils::SmsConfig;
use crate::ssh_utils::SshConfig;
use crate::status::Status;
use crate::strutil::spec_find;
use crate::user::User;

verus! {

/// Every failure the core classifies. Payload-carrying variants hold the
/// detail as plain text; failures of outside collaborators arrive already
/// rendered by the caller.
#[derive(Debug, Clone, PartialEq)]
pub enum Error {
    IoError(String),
    SmsInitError,
    SmsReadingError,
    SmsSendingError,
    SystemCommandExecutionError,
    SshTunnelUrlParsingError,
    SshTunnelUrlSetupTimeout,
    SshTunnelServiceError(String),
    ConfigurationParsingError(String),
    QmiResponseParsingError(String),
    SenderNotAllowed(String),
    InvalidRequestError(String),
    DomainNameResolutionError,
    PingError(String),
    InvalidStatus(String),
}

pub open spec fn spec_error_text(e: Error) -> Seq<char> {
    match e {
        Error::IoError(m) => "IoError: "@ + m@,
        Error::SmsInitError => "SmsInitError"@,
        Error::SmsReadingError => "SmsReadingError"@,
        Error::SmsSendingError => "SmsSendingError"@,
        Error::SystemCommandExecutionError => "SystemCommandExecutionError"@,
        Error::SshTunnelUrlParsingError => "SshTunnelUrlParsingError"@,
        Error::SshTunnelUrlSetupTimeout => "SshTunnelUrlSetupTimeout"@,
        Error::SshTunnelServiceError(m) => "SshTunnelServiceError: "@ + m@,
        Error::ConfigurationParsingError(m) => "ConfigurationParsingError: "@ + m@,
        Error::QmiResponseParsingError(m) => "QmiResponseParsingError: "@ + m@,
        Error::SenderNotAllowed(m) => "SenderNotAllowed: "@ + m@,
        Error::InvalidRequestError(m) => "InvalidRequestError: "@ + m@,
        Error::DomainNameResolutionError => "DomainNameResolutionError"@,
        Error::PingError(m) => "PingError: "@ + m@,
        Error::InvalidStatus(m) => "InvalidStatus: "@ + m@,
    }
}

impl Error {
    /// Technical rendering of the error, used only in logs and in the generic
    /// technical-failure reply.
    pub fn text(&self) -> (r: String)
        ensures
            r@ == spec_error_text(*self),
    {
        match self {
            Error::IoError(m) => concat_label("IoError: ", m),
            Error::SmsInitError => String::from_str("SmsInitError"),
            Error::SmsReadingError => String::from_str("SmsReadingError"),
            Error::SmsSendingError => String::from_str("SmsSendingError"),
            Error::SystemCommandExecutionError => String::from_str("SystemCommandExecutionError"),
            Error::SshTunnelUrlParsingError => String::from_str("SshTunnelUrlParsingError"),
            Error::SshTunnelUrlSetupTimeout => String::from_str("SshTunnelUrlSetupTimeout"),
            Error::SshTunnelServiceError(m) => concat_label("SshTunnelServiceError: ", m),
            Error::ConfigurationParsingError(m) => concat_label("ConfigurationParsingError: ", m),
            Error::QmiResponseParsingError(m) => concat_label("QmiResponseParsingError: ", m),
            Error::SenderNotAllowed(m) => concat_label("SenderNotAllowed: ", m),
            Error::InvalidRequestError(m) => concat_label("InvalidRequestError: ", m),
            Error::DomainNameResolutionError => String::from_str("DomainNameResolutionError"),
            Error::PingError(m) => concat_label("PingError: ", m),
            Error::InvalidStatus(m) => concat_label("InvalidStatus: ", m),
        }
    }
}

fn concat_label(label: &str, detail: &String) -> (r: String)
    ensures
        r@ == label@ + detail@,
{
    let mut s: String = String::from_str(label);
    s.append(detail.as_str());
    s
}

/// One live reverse tunnel. The process field is the handle under which the
/// hosting layer tracks the spawned tunnel client; the registry entry is its
/// only owner. Creation time is in seconds.
#[derive(Debug, Clone, PartialEq)]
pub struct Tunnel {
    pub user: String,
    pub application: String,
    pub process: u64,
    pub creation_date: u64,
}

impl Tunnel {
    pub fn new(user: String, application: String, process: u64, creation_date: u64) -> (r: Self)
        ensures
            r == (Tunnel { user, application, process, creation_date }),
    {
        Tunnel { user, application, process, creation_date }
    }
}

#[derive(Debug, Clone, PartialEq)]
pub struct Configuration {
    pub users: Vec<User>,
    pub applications: Vec<Application>,
    pub sms_config: SmsConfig,
    pub email_config: EmailConfig,
    pub ssh_config: SshConfig,
    pub init_config: InitConfig,
}

// ---------------------------------------------------------------------------
// Tunnel registry predicates
// ---------------------------------------------------------------------------
pub open spec fn has_tunnel_id(ts: Seq<(u32, Tunnel)>, id: u32) -> bool {
    exists|i: int| 0 <= i < ts.len() && ts[i].0 == id
}

pub open spec fn unique_tunnel_ids(ts: Seq<(u32, Tunnel)>) -> bool {
    forall|i: int, j: int| 0 <= i < j < ts.len() ==> ts[i].0 != ts[j].0
}

pub open spec fn ids_below(ts: Seq<(u32, Tunnel)>, bound: u32) -> bool {
    forall|i: int| 0 <= i < ts.len() ==> ts[i].0 < bound
}

/// The entry belongs to the given user and application pair.
pub open spec fn is_user_app_tunnel(user: Seq<char>, application: Seq<char>) -> spec_fn(
    (u32, Tunnel),
) -> bool {
    |t: (u32, Tunnel)| t.1.user@ == user && t.1.application@ == application
}

pub open spec fn is_user_tunnel(user: Seq<char>) -> spec_fn((u32, Tunnel)) -> bool {
    |t: (u32, Tunnel)| t.1.user@ == user
}

/// References of the user's tunnels, in registry order.
pub open spec fn spec_user_ids(ts: Seq<(u32, Tunnel)>, user: Seq<char>) -> Seq<u32>
    decreases ts.len(),
{
    if ts.len() == 0 {
        Seq::empty()
    } else {
        let rest = spec_user_ids(ts.drop_last(), user);
        if ts.last().1.user@ == user {
            rest.push(ts.last().0)
        } else {
            rest
        }
    }
}

/// Age of the entry exceeds the timeout; a clock that moved backwards never
/// expires anything.
pub open spec fn spec_is_expired(t: Tunnel, now: u64, timeout: u64) -> bool {
    now > t.creation_date && now - t.creation_date > timeout
}

pub open spec fn spec_expired_of(ts: Seq<(u32, Tunnel)>, now: u64, timeout: u64) -> Seq<
    (u32, Tunnel),
>
    decreases ts.len(),
{
    if ts.len() == 0 {
        Seq::empty()
    } else {
        let rest = spec_expired_of(ts.drop_last(), now, timeout);
        if spec_is_expired(ts.last().1, now, timeout) {
            rest.push(ts.last())
        } else {
            rest
        }
    }
}

pub open spec fn spec_live_of(ts: Seq<(u32, Tunnel)>, now: u64, timeout: u64) -> Seq<(u32, Tunnel)>
    decreases ts.len(),
{
    if ts.len() == 0 {
        Seq::empty()
    } else {
        let rest = spec_live_of(ts.drop_last(), now, timeout);
        if spec_is_expired(ts.last().1, now, timeout) {
            rest
        } else {
            rest.push(ts.last())
        }
    }
}

/// The expiry sweep partitions the registry exactly by age: everything it
/// removes is over the timeout, everything over the timeout is removed, and
/// everything younger stays.
pub proof fn lemma_expiry_partition(ts: Seq<(u32, Tunnel)>, now: u64, timeout: u64)
    ensures
        forall|k: int|
            0 <= k < spec_expired_of(ts, now, timeout).len() ==> spec_is_expired(
                #[trigger] spec_expired_of(ts, now, timeout)[k].1,
                now,
                timeout,
            ) && exists|j: int| 0 <= j < ts.len() && ts[j] == spec_expired_of(ts, now, timeout)[k],
        forall|k: int|
            0 <= k < spec_live_of(ts, now, timeout).len() ==> !spec_is_expired(
                #[trigger] spec_live_of(ts, now, timeout)[k].1,
                now,
                timeout,
            ) && exists|j: int| 0 <= j < ts.len() && ts[j] == spec_live_of(ts, now, timeout)[k],
        forall|j: int|
            0 <= j < ts.len() && spec_is_expired(#[trigger] ts[j].1, now, timeout)
                ==> spec_expired_of(ts, now, timeout).contains(ts[j]),
        forall|j: int|
            0 <= j < ts.len() && !spec_is_expired(#[trigger] ts[j].1, now, timeout) ==> spec_live_of(
                ts,
                now,
                timeout,
            ).contains(ts[j]),
    decreases ts.len(),
{
    if ts.len() > 0 {
        lemma_expiry_partition(ts.drop_last(), now, timeout);
        let dl = ts.drop_last();
        assert forall|k: int|
            0 <= k < spec_expired_of(ts, now, timeout).len() implies spec_is_expired(
            spec_expired_of(ts, now, timeout)[k].1,
            now,
            timeout,
        ) && exists|j: int| 0 <= j < ts.len() && ts[j] == spec_expired_of(ts, now, timeout)[k] by {
            let whole = spec_expired_of(ts, now, timeout);
            let rest = spec_expired_of(dl, now, timeout);
            if k < rest.len() {
                assert(whole[k] == rest[k]);
                assert(spec_is_expired(spec_expired_of(dl, now, timeout)[k].1, now, timeout));
                let j = choose|j: int| 0 <= j < dl.len() && dl[j] == rest[k];
                assert(ts[j] == whole[k]);
            } else {
                assert(whole[k] == ts.last());
                assert(ts[ts.len() - 1] == whole[k]);
            }
        }
        assert forall|k: int|
            0 <= k < spec_live_of(ts, now, timeout).len() implies !spec_is_expired(
            spec_live_of(ts, now, timeout)[k].1,
            now,
            timeout,
        ) && exists|j: int| 0 <= j < ts.len() && ts[j] == spec_live_of(ts, now, timeout)[k] by {
            let whole = spec_live_of(ts, now, timeout);
            let rest = spec_live_of(dl, now, timeout);
            if k < rest.len() {
                assert(whole[k] == rest[k]);
                assert(!spec_is_expired(spec_live_of(dl, now, timeout)[k].1, now, timeout));
                let j = choose|j: int| 0 <= j < dl.len() && dl[j] == rest[k];
                assert(ts[j] == whole[k]);
            } else {
                assert(whole[k] == ts.last());
                assert(ts[ts.len() - 1] == whole[k]);
            }
        }
        assert forall|j: int| 0 <= j < ts.len() && spec_is_expired(#[trigger] ts[j].1, now, timeout)
            implies spec_expired_of(ts, now, timeout).contains(ts[j]) by {
            if j < ts.len() - 1 {
                assert(ts.drop_last()[j] == ts[j]);
                let e = spec_expired_of(ts.drop_last(), now, timeout);
                let k = choose|k: int| 0 <= k < e.len() && e[k] == ts[j];
                assert(spec_expired_of(ts, now, timeout)[k] == ts[j]);
            } else {
                let e = spec_expired_of(ts, now, timeout);
                assert(e[e.len() - 1] == ts[j]);
            }
        }
        assert forall|j: int|
            0 <= j < ts.len() && !spec_is_expired(#[trigger] ts[j].1, now, timeout)
            implies spec_live_of(ts, now, timeout).contains(ts[j]) by {
            if j < ts.len() - 1 {
                assert(ts.drop_last()[j] == ts[j]);
                let e = spec_live_of(ts.drop_last(), now, timeout);
                let k = choose|k: int| 0 <= k < e.len() && e[k] == ts[j];
                assert(spec_live_of(ts, now, timeout)[k] == ts[j]);
            } else {
                let e = spec_live_of(ts, now, timeout);
                assert(e[e.len() - 1] == ts[j]);
            }
        }
    }
}

proof fn lemma_live_of_wf(ts: Seq<(u32, Tunnel)>, now: u64, timeout: u64, bound: u32)
    requires
        unique_tunnel_ids(ts),
        ids_below(ts, bound),
    ensures
        unique_tunnel_ids(spec_live_of(ts, now, timeout)),
        ids_below(spec_live_of(ts, now, timeout), bound),
    decreases ts.len(),
{
    if ts.len() > 0 {
        let dl = ts.drop_last();
        assert(unique_tunnel_ids(dl)) by {
            assert(forall|i: int| 0 <= i < dl.len() ==> dl[i] == ts[i]);
        }
        assert(ids_below(dl, bound)) by {
            assert(forall|i: int| 0 <= i < dl.len() ==> dl[i] == ts[i]);
        }
        lemma_live_of_wf(dl, now, timeout, bound);
        lemma_expiry_partition(dl, now, timeout);
        let live = spec_live_of(ts, now, timeout);
        if !spec_is_expired(ts.last().1, now, timeout) {
            let rest = spec_live_of(dl, now, timeout);
            assert forall|i: int, j: int| 0 <= i < j < live.len() implies live[i].0 != live[j].0 by {
                if j == live.len() - 1 {
                    assert(live[i] == rest[i]);
                    assert(rest[i].1 == spec_live_of(dl, now, timeout)[i].1);
                    assert(exists|w: int| 0 <= w < dl.len() && dl[w] == rest[i]);
                    let w = choose|w: int| 0 <= w < dl.len() && dl[w] == rest[i];
                    assert(dl[w] == ts[w]);
                    assert(ts[w].0 != ts.last().0);
                    assert(live[j] == ts.last());
                } else {
                    assert(live[i] == rest[i]);
                    assert(live[j] == rest[j]);
                }
            }
            assert forall|k: int| 0 <= k < live.len() implies live[k].0 < bound by {
                if k < live.len() - 1 {
                    assert(live[k] == rest[k]);
                } else {
                    assert(live[k] == ts.last());
                }
            }
        }
    }
}

// ---------------------------------------------------------------------------
// Context
// ---------------------------------------------------------------------------
/// Everything the dispatcher works on: immutable configuration, the cached
/// status snapshot, and the live-tunnel registry with its reference allocator.
pub struct Context {
    pub configuration: Configuration,
    pub status: Status,
    pub tunnels: Vec<(u32, Tunnel)>,
    pub next_tunnel_id: u32,
}

impl Context {
    /// Registry well-formedness: references are unique and all below the next
    /// reference to be handed out, so a fresh reference never collides.
    pub open spec fn wf(&self) -> bool {
        unique_tunnel_ids(self.tunnels@) && ids_below(self.tunnels@, self.next_tunnel_id)
    }

    pub fn new(configuration: Configuration, status: Status) -> (r: Self)
        ensures
            r.wf(),
            r.configuration == configuration,
            r.status == status,
            r.tunnels@.len() == 0,
            r.next_tunnel_id == 0,
    {
        Context { configuration, status, tunnels: Vec::new(), next_tunnel_id: 0 }
    }

    pub fn update_status(&mut self, status: Status)
        ensures
            final(self).status == status,
            final(self).configuration == old(self).configuration,
            final(self).tunnels@ == old(self).tunnels@,
            final(self).next_tunnel_id == old(self).next_tunnel_id,
    {
        self.status = status;
    }

    /// Registers a freshly set-up tunnel under a new reference. References are
    /// strictly monotonic and never derived from the registry's size, so a
    /// reference freed by a removal is never handed out again.
    pub fn register_tunnel(&mut self, user: String, application: String, process: u64, now: u64)
        -> (id: u32)
        requires
            old(self).wf(),
            old(self).next_tunnel_id < u32::MAX,
        ensures
            final(self).wf(),
            id == old(self).next_tunnel_id,
            final(self).next_tunnel_id == old(self).next_tunnel_id + 1,
            final(self).tunnels@ == old(self).tunnels@.push(
                (id, Tunnel { user, application, process, creation_date: now }),
            ),
            final(self).configuration == old(self).configuration,
            final(self).status == old(self).status,
    {
        let id: u32 = self.next_tunnel_id;
        self.next_tunnel_id = self.next_tunnel_id + 1;
        self.tunnels.push((id, Tunnel::new(user, application, process, now)));
        id
    }

    /// Removes the entry with the given reference and hands it back so that
    /// the caller can terminate its process; an unknown reference removes
    /// nothing.
    #[verifier::loop_isolation(false)]
    pub fn remove_tunnel(&mut self, id: u32) -> (r: Option<Tunnel>)
        requires
            old(self).wf(),
        ensures
            final(self).wf(),
            final(self).configuration == old(self).configuration,
            final(self).status == old(self).status,
            final(self).next_tunnel_id == old(self).next_tunnel_id,
            r is Some <==> has_tunnel_id(old(self).tunnels@, id),
            r is None ==> final(self).tunnels@ == old(self).tunnels@,
            r is Some ==> exists|i: int|
                0 <= i < old(self).tunnels@.len() && old(self).tunnels@[i].0 == id && r.unwrap()
                    == old(self).tunnels@[i].1 && final(self).tunnels@ == old(self).tunnels@.remove(
                    i,
                ),
            !has_tunnel_id(final(self).tunnels@, id),
    {
        let ghost orig = old(self).tunnels@;
        let n: usize = self.tunnels.len();
        let mut i: usize = 0;
        while i < n
            invariant
                i <= n,
                n == orig.len(),
                *self == *old(self),
                forall|j: int| 0 <= j < i ==> orig[j].0 != id,
            decreases n - i,
        {
            if self.tunnels[i].0 == id {
                let entry = self.tunnels.remove(i);
                proof {
                    assert forall|a: int, b: int|
                        0 <= a < b < self.tunnels@.len() implies self.tunnels@[a].0
                        != self.tunnels@[b].0 by {
                        let a0: int = if a < i { a } else { a + 1 };
                        let b0: int = if b < i { b } else { b + 1 };
                        assert(self.tunnels@[a] == orig[a0]);
                        assert(self.tunnels@[b] == orig[b0]);
                    }
                    assert forall|a: int| 0 <= a < self.tunnels@.len() implies !(
                    #[trigger] self.tunnels@[a].0 == id) by {
                        let a0: int = if a < i { a } else { a + 1 };
                        assert(self.tunnels@[a] == orig[a0]);
                    }
                }
                return Some(entry.1);
            }
            i = i + 1;
        }
        proof {
            assert(!has_tunnel_id(orig, id));
        }
        None
    }

    /// References of every tunnel the user owns, in registry order.
    #[verifier::loop_isolation(false)]
    pub fn user_tunnel_ids(&self, user: &str) -> (r: Vec<u32>)
        ensures
            r@ == spec_user_ids(self.tunnels@, user@),
    {
        let mut r: Vec<u32> = Vec::new();
        let n: usize = self.tunnels.len();
        let mut i: usize = 0;
        while i < n
            invariant
                i <= n,
                n == self.tunnels@.len(),
                r@ == spec_user_ids(self.tunnels@.take(i as int), user@),
            decreases n - i,
        {
            if crate::strutil::str_eq(self.tunnels[i].1.user.as_str(), user) {
                r.push(self.tunnels[i].0);
            }
            proof {
                assert(self.tunnels@.take(i as int + 1).drop_last() =~= self.tunnels@.take(
                    i as int,
                ));
                assert(self.tunnels@.take(i as int + 1).last() == self.tunnels@[i as int]);
            }
            i = i + 1;
        }
        proof {
            assert(self.tunnels@.take(n as int) =~= self.tunnels@);
        }
        r
    }

    /// The periodic expiry sweep: removes every entry older than the
    /// configured timeout and hands the removed entries back so the caller can
    /// terminate their processes and notify their owners. Whether any
    /// notification succeeds has no bearing on removal, which is already done.
    #[verifier::loop_isolation(false)]
    pub fn clean_up_expired_tunnels(&mut self, now: u64) -> (removed: Vec<(u32, Tunnel)>)
        requires
            old(self).wf(),
        ensures
            final(self).wf(),
            final(self).configuration == old(self).configuration,
            final(self).status == old(self).status,
            final(self).next_tunnel_id == old(self).next_tunnel_id,
            removed@ == spec_expired_of(
                old(self).tunnels@,
                now,
                old(self).configuration.ssh_config.tunnel_timeout_sec,
            ),
            final(self).tunnels@ == spec_live_of(
                old(self).tunnels@,
                now,
                old(self).configuration.ssh_config.tunnel_timeout_sec,
            ),
    {
        let ghost orig = self.tunnels@;
        let timeout: u64 = self.configuration.ssh_config.tunnel_timeout_sec;
        let mut kept: Vec<(u32, Tunnel)> = Vec::new();
        let mut removed: Vec<(u32, Tunnel)> = Vec::new();
        let ghost mut i: int = 0;
        while self.tunnels.len() > 0
            invariant
                0 <= i <= orig.len(),
                self.tunnels@ =~= orig.skip(i),
                kept@ == spec_live_of(orig.take(i), now, timeout),
                removed@ == spec_expired_of(orig.take(i), now, timeout),
                self.configuration == old(self).configuration,
                self.status == old(self).status,
                self.next_tunnel_id == old(self).next_tunnel_id,
                timeout == old(self).configuration.ssh_config.tunnel_timeout_sec,
            decreases orig.len() - i,
        {
            let entry = self.tunnels.remove(0);
            proof {
                assert(entry == orig[i]);
                assert(orig.take(i + 1).drop_last() =~= orig.take(i));
                assert(orig.take(i + 1).last() == orig[i]);
                assert(orig.skip(i).remove(0) =~= orig.skip(i + 1));
            }
            let expired: bool = now > entry.1.creation_date && now - entry.1.creation_date
                > timeout;
            if expired {
                removed.push(entry);
            } else {
                kept.push(entry);
            }
            proof {
                i = i + 1;
            }
        }
        proof {
            assert(orig.take(orig.len() as int) =~= orig);
            lemma_live_of_wf(orig, now, timeout, old(self).next_tunnel_id);
        }
        self.tunnels = kept;
        removed
    }
}

// ---------------------------------------------------------------------------
// Partition of the registry by an arbitrary predicate (the close-all path)
// ---------------------------------------------------------------------------
/// The entries satisfying `f`, in registry order.
pub open spec fn spec_matching_of(
    ts: Seq<(u32, Tunnel)>,
    f: spec_fn((u32, Tunnel)) -> bool,
) -> Seq<(u32, Tunnel)>
    decreases ts.len(),
{
    if ts.len() == 0 {
        Seq::empty()
    } else {
        let rest = spec_matching_of(ts.drop_last(), f);
        if f(ts.last()) {
            rest.push(ts.last())
        } else {
            rest
        }
    }
}

/// The entries not satisfying `f`, in registry order.
pub open spec fn spec_remaining_of(
    ts: Seq<(u32, Tunnel)>,
    f: spec_fn((u32, Tunnel)) -> bool,
) -> Seq<(u32, Tunnel)>
    decreases ts.len(),
{
    if ts.len() == 0 {
        Seq::empty()
    } else {
        let rest = spec_remaining_of(ts.drop_last(), f);
        if f(ts.last()) {
            rest
        } else {
            rest.push(ts.last())
        }
    }
}

/// The partition is exact: matching entries all land in the removed side,
/// the others all stay, and both sides consist of registry entries.
pub proof fn lemma_partition_props(ts: Seq<(u32, Tunnel)>, f: spec_fn((u32, Tunnel)) -> bool)
    ensures
        forall|k: int|
            0 <= k < spec_matching_of(ts, f).len() ==> f(#[trigger] spec_matching_of(ts, f)[k])
                && exists|j: int| 0 <= j < ts.len() && ts[j] == spec_matching_of(ts, f)[k],
        forall|k: int|
            0 <= k < spec_remaining_of(ts, f).len() ==> !f(#[trigger] spec_remaining_of(ts, f)[k])
                && exists|j: int| 0 <= j < ts.len() && ts[j] == spec_remaining_of(ts, f)[k],
        forall|j: int|
            0 <= j < ts.len() && f(#[trigger] ts[j]) ==> spec_matching_of(ts, f).contains(ts[j]),
        forall|j: int|
            0 <= j < ts.len() && !f(#[trigger] ts[j]) ==> spec_remaining_of(ts, f).contains(ts[j]),
    decreases ts.len(),
{
    if ts.len() > 0 {
        lemma_partition_props(ts.drop_last(), f);
        let dl = ts.drop_last();
        assert forall|k: int| 0 <= k < spec_matching_of(ts, f).len() implies f(
            spec_matching_of(ts, f)[k],
        ) && exists|j: int| 0 <= j < ts.len() && ts[j] == spec_matching_of(ts, f)[k] by {
            let whole = spec_matching_of(ts, f);
            let rest = spec_matching_of(dl, f);
            if k < rest.len() {
                assert(whole[k] == rest[k]);
                assert(f(spec_matching_of(dl, f)[k]));
                let j = choose|j: int| 0 <= j < dl.len() && dl[j] == rest[k];
                assert(ts[j] == whole[k]);
            } else {
                assert(whole[k] == ts.last());
                assert(ts[ts.len() - 1] == whole[k]);
            }
        }
        assert forall|k: int| 0 <= k < spec_remaining_of(ts, f).len() implies !f(
            spec_remaining_of(ts, f)[k],
        ) && exists|j: int| 0 <= j < ts.len() && ts[j] == spec_remaining_of(ts, f)[k] by {
            let whole = spec_remaining_of(ts, f);
            let rest = spec_remaining_of(dl, f);
            if k < rest.len() {
                assert(whole[k] == rest[k]);
                assert(!f(spec_remaining_of(dl, f)[k]));
                let j = choose|j: int| 0 <= j < dl.len() && dl[j] == rest[k];
                assert(ts[j] == whole[k]);
            } else {
                assert(whole[k] == ts.last());
                assert(ts[ts.len() - 1] == whole[k]);
            }
        }
        assert forall|j: int| 0 <= j < ts.len() && f(#[trigger] ts[j]) implies spec_matching_of(
            ts,
            f,
        ).contains(ts[j]) by {
            if j < ts.len() - 1 {
                assert(ts.drop_last()[j] == ts[j]);
                let e = spec_matching_of(ts.drop_last(), f);
                let k = choose|k: int| 0 <= k < e.len() && e[k] == ts[j];
                assert(spec_matching_of(ts, f)[k] == ts[j]);
            } else {
                let e = spec_matching_of(ts, f);
                assert(e[e.len() - 1] == ts[j]);
            }
        }
        assert forall|j: int| 0 <= j < ts.len() && !f(#[trigger] ts[j]) implies spec_remaining_of(
            ts,
            f,
        ).contains(ts[j]) by {
            if j < ts.len() - 1 {
                assert(ts.drop_last()[j] == ts[j]);
                let e = spec_remaining_of(ts.drop_last(), f);
                let k = choose|k: int| 0 <= k < e.len() && e[k] == ts[j];
                assert(spec_remaining_of(ts, f)[k] == ts[j]);
            } else {
                let e = spec_remaining_of(ts, f);
                assert(e[e.len() - 1] == ts[j]);
            }
        }
    }
}

/// When nothing matches, the remaining side is the whole registry.
pub proof fn lemma_partition_nothing_matched(
    ts: Seq<(u32, Tunnel)>,
    f: spec_fn((u32, Tunnel)) -> bool,
)
    requires
        spec_matching_of(ts, f).len() == 0,
    ensures
        spec_remaining_of(ts, f) == ts,
    decreases ts.len(),
{
    if ts.len() > 0 {
        assert(!f(ts.last()));
        lemma_partition_nothing_matched(ts.drop_last(), f);
        assert(spec_remaining_of(ts, f) =~= ts);
    }
}

proof fn lemma_remaining_wf(
    ts: Seq<(u32, Tunnel)>,
    f: spec_fn((u32, Tunnel)) -> bool,
    bound: u32,
)
    requires
        unique_tunnel_ids(ts),
        ids_below(ts, bound),
    ensures
        unique_tunnel_ids(spec_remaining_of(ts, f)),
        ids_below(spec_remaining_of(ts, f), bound),
    decreases ts.len(),
{
    if ts.len() > 0 {
        let dl = ts.drop_last();
        assert(unique_tunnel_ids(dl)) by {
            assert(forall|i: int| 0 <= i < dl.len() ==> dl[i] == ts[i]);
        }
        assert(ids_below(dl, bound)) by {
            assert(forall|i: int| 0 <= i < dl.len() ==> dl[i] == ts[i]);
        }
        lemma_remaining_wf(dl, f, bound);
        lemma_partition_props(dl, f);
        let rem = spec_remaining_of(ts, f);
        if !f(ts.last()) {
            let rest = spec_remaining_of(dl, f);
            assert forall|i: int, j: int| 0 <= i < j < rem.len() implies rem[i].0 != rem[j].0 by {
                if j == rem.len() - 1 {
                    assert(rem[i] == rest[i]);
                    assert(!f(spec_remaining_of(dl, f)[i]));
                    assert(exists|w: int| 0 <= w < dl.len() && dl[w] == rest[i]);
                    let w = choose|w: int| 0 <= w < dl.len() && dl[w] == rest[i];
                    assert(dl[w] == ts[w]);
                    assert(ts[w].0 != ts.last().0);
                    assert(rem[j] == ts.last());
                } else {
                    assert(rem[i] == rest[i]);
                    assert(rem[j] == rest[j]);
                }
            }
            assert forall|k: int| 0 <= k < rem.len() implies rem[k].0 < bound by {
                if k < rem.len() - 1 {
                    assert(rem[k] == rest[k]);
                } else {
                    assert(rem[k] == ts.last());
                }
            }
        }
    }
}

impl Context {
    /// Removes every tunnel the user owns and hands the removed entries back
    /// so the caller can terminate their processes.
    #[verifier::loop_isolation(false)]
    pub fn remove_user_tunnels(&mut self, user: &str) -> (removed: Vec<(u32, Tunnel)>)
        requires
            old(self).wf(),
        ensures
            final(self).wf(),
            final(self).configuration == old(self).configuration,
            final(self).status == old(self).status,
            final(self).next_tunnel_id == old(self).next_tunnel_id,
            removed@ == spec_matching_of(old(self).tunnels@, is_user_tunnel(user@)),
            final(self).tunnels@ == spec_remaining_of(old(self).tunnels@, is_user_tunnel(user@)),
    {
        let ghost orig = old(self).tunnels@;
        let ghost f = is_user_tunnel(user@);
        let mut kept: Vec<(u32, Tunnel)> = Vec::new();
        let mut removed: Vec<(u32, Tunnel)> = Vec::new();
        let ghost mut i: int = 0;
        while self.tunnels.len() > 0
            invariant
                0 <= i <= orig.len(),
                self.tunnels@ =~= orig.skip(i),
                kept@ == spec_remaining_of(orig.take(i), f),
                removed@ == spec_matching_of(orig.take(i), f),
                self.configuration == old(self).configuration,
                self.status == old(self).status,
                self.next_tunnel_id == old(self).next_tunnel_id,
                f == is_user_tunnel(user@),
            decreases orig.len() - i,
        {
            let entry = self.tunnels.remove(0);
            proof {
                assert(entry == orig[i]);
                assert(orig.take(i + 1).drop_last() =~= orig.take(i));
                assert(orig.take(i + 1).last() == orig[i]);
                assert(orig.skip(i).remove(0) =~= orig.skip(i + 1));
            }
            let owned: bool = crate::strutil::str_eq(entry.1.user.as_str(), user);
            proof {
                assert(owned == f(entry));
            }
            if owned {
                removed.push(entry);
            } else {
                kept.push(entry);
            }
            proof {
                i = i + 1;
            }
        }
        proof {
            assert(orig.take(orig.len() as int) =~= orig);
            lemma_remaining_wf(orig, f, old(self).next_tunnel_id);
        }
        self.tunnels = kept;
        removed
    }
}

// ---------------------------------------------------------------------------
// Registry laws
// ---------------------------------------------------------------------------
/// Closing a reference is final for that reference: once the entry with `id`
/// is removed from a well-formed registry, no remaining entry matches `id`,
/// so a second close of the same reference fails as unknown.
pub proof fn lemma_closed_id_unknown(ts: Seq<(u32, Tunnel)>, i: int, id: u32)
    requires
        unique_tunnel_ids(ts),
        0 <= i < ts.len(),
        ts[i].0 == id,
    ensures
        !has_tunnel_id(ts.remove(i), id),
{
    let r = ts.remove(i);
    assert forall|k: int| 0 <= k < r.len() implies r[k].0 != id by {
        let k0: int = if k < i { k } else { k + 1 };
        assert(r[k] == ts[k0]);
    }
}

/// A removed reference never matches a later tunnel: the allocator only moves
/// forward, so every reference handed out after the removal is strictly above
/// the removed one.
pub proof fn lemma_removed_id_never_reused(id: u32, next_at_removal: u32, next_later: u32)
    requires
        id < next_at_removal,
        next_at_removal <= next_later,
    ensures
        next_later != id,
{
}

/// Two open requests for the same user and application cannot both succeed:
/// once one tunnel for the pair is registered, the duplicate check finds a
/// tunnel of that pair (in particular the one just registered, when no older
/// one existed), and the second request is refused naming that reference.
pub proof fn lemma_second_open_conflicts(
    ts: Seq<(u32, Tunnel)>,
    user: Seq<char>,
    application: Seq<char>,
    entry: (u32, Tunnel),
)
    requires
        entry.1.user@ == user,
        entry.1.application@ == application,
    ensures
        spec_find(ts.push(entry), 0, is_user_app_tunnel(user, application)) is Some,
        is_user_app_tunnel(user, application)(
            ts.push(entry)[spec_find(ts.push(entry), 0, is_user_app_tunnel(user, application)).unwrap()],
        ),
        (forall|i: int| 0 <= i < ts.len() ==> !is_user_app_tunnel(user, application)(ts[i]))
            ==> spec_find(ts.push(entry), 0, is_user_app_tunnel(user, application)) == Some(
            ts.len() as int,
        ),
{
    let s = ts.push(entry);
    let f = is_user_app_tunnel(user, application);
    crate::strutil::lemma_spec_find_props(s, 0, f);
    assert(f(s[s.len() - 1]));
    if spec_find(s, 0, f) is None {
        assert(!f(s[s.len() - 1]));
    }
    if forall|i: int| 0 <= i < ts.len() ==> !f(#[trigger] ts[i]) {
        let found = spec_find(s, 0, f).unwrap();
        if found < ts.len() {
            assert(s[found] == ts[found]);
        }
    }
}

} // verus!
