//! The startup readiness state machine: how many more probe rounds the daemon
//! may spend waiting for the network, and the one SIM-unlock attempt it is
//! allowed, decided one resolved status at a time.
use vstd::prelude::*;
use vstd::string::*;

use crate::status::{render_status, spec_render_status, DeviceStatus, Status};

verus! {

/// The message sent to the registered next-boot listener once the daemon is
/// up again, carrying the freshly resolved status.
pub fn startup_notice(status: &Status) -> (r: String)
    ensures
        r@ == "Telco-Vecchio is up.\n"@ + spec_render_status(*status),
{
    let mut s: String = String::from_str("Telco-Vecchio is up.\n");
    let rendered: String = render_status(status);
    s.append(rendered.as_str());
    s
}

#[derive(Debug, Clone, PartialEq)]
pub struct InitConfig {
    pub init_status_refresh_period_seconds: u64,
    pub init_status_refresh_max_retry: u32,
}

/// Progress of the startup loop between two probes.
#[derive(Debug, Clone, Copy, PartialEq, Eq, Structural)]
pub struct InitRetryState {
    /// The single allowed SIM-unlock attempt has been spent.
    pub sim_unlock_performed: bool,
    /// Probe rounds left to wait for network readiness.
    pub retries_left: u32,
}

/// What the startup loop must do next after one resolved device status.
#[derive(Debug, Clone, PartialEq, Eq, Structural)]
pub enum InitAction {
    /// Attempt the one SIM unlock, then probe again.
    AttemptSimUnlock,
    /// Sleep for the configured refresh period, then probe again.
    RetryAfterSleep,
    /// The device is ready: arm the receive mode and start serving.
    Proceed,
    /// Startup cannot succeed; abort.
    Fatal,
}

pub fn initial_retry_state(config: &InitConfig) -> (r: InitRetryState)
    ensures
        r.sim_unlock_performed == false,
        r.retries_left == config.init_status_refresh_max_retry,
{
    InitRetryState { sim_unlock_performed: false, retries_left: config.init_status_refresh_max_retry }
}

/// One transition of the startup state machine. A locked SIM is granted
/// exactly one unlock attempt and is fatal the second time; a device that is
/// not yet on the network is granted `retries_left` further probes, each after
/// a sleep, and exhausting them is fatal; a ready device proceeds to serving.
pub fn init_step(state: &InitRetryState, device_status: &DeviceStatus) -> (r: (
    InitRetryState,
    InitAction,
))
    ensures
        device_status is SimLocked && !state.sim_unlock_performed ==> r == (
            InitRetryState { sim_unlock_performed: true, retries_left: state.retries_left },
            InitAction::AttemptSimUnlock,
        ),
        device_status is SimLocked && state.sim_unlock_performed ==> r == (
            *state,
            InitAction::Fatal,
        ),
        (device_status is LteNotConnected || device_status is InternetUnreachable)
            && state.retries_left > 0 ==> r == (
            InitRetryState {
                sim_unlock_performed: state.sim_unlock_performed,
                retries_left: (state.retries_left - 1) as u32,
            },
            InitAction::RetryAfterSleep,
        ),
        (device_status is LteNotConnected || device_status is InternetUnreachable)
            && state.retries_left == 0 ==> r == (*state, InitAction::Fatal),
        device_status is Ready ==> r == (*state, InitAction::Proceed),
{
    match device_status {
        DeviceStatus::SimLocked => {
            if !state.sim_unlock_performed {
                (
                    InitRetryState { sim_unlock_performed: true, retries_left: state.retries_left },
                    InitAction::AttemptSimUnlock,
                )
            } else {
                (*state, InitAction::Fatal)
            }
        },
        DeviceStatus::LteNotConnected | DeviceStatus::InternetUnreachable => {
            if state.retries_left > 0 {
                (
                    InitRetryState {
                        sim_unlock_performed: state.sim_unlock_performed,
                        retries_left: state.retries_left - 1,
                    },
                    InitAction::RetryAfterSleep,
                )
            } else {
                (*state, InitAction::Fatal)
            }
        },
        DeviceStatus::Ready => (*state, InitAction::Proceed),
    }
}

} // verus!
