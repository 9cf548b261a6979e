//! The runtime: which pools it needs, and what a run consists of.

use crate::lcore::SocketId;
use vstd::prelude::*;

verus! {

/// Bytes of a split frame that go to the header buffer.
pub const SPLIT_HDR_SIZE: u16 = 64;

/// The settings of a mode, as far as memory goes.
#[derive(Debug, Clone, Copy, PartialEq, Eq, Structural)]
pub struct ModeConfig {
    pub mtu: u16,
}

/// The runtime's settings.
#[derive(Debug)]
pub struct RuntimeConfig {
    /// Sockets that need pools.
    pub socket_ids: Vec<SocketId>,
    pub online: Option<ModeConfig>,
    pub offline: Option<ModeConfig>,
    /// A software flow table is configured.
    pub flow_table: bool,
}

/// The pools of one socket: one for whole frames, and one for split headers and their payloads.
#[derive(Debug, Clone, Copy, PartialEq, Eq, Structural)]
pub struct PoolPlan {
    pub socket_id: SocketId,
    pub mtu: u16,
    pub split_hdr_size: u16,
}

/// Why a runtime cannot be set up.
#[derive(Debug, Clone, Copy, PartialEq, Eq, Structural)]
pub enum RuntimeError {
    /// The environment abstraction layer could not be initialised.
    Environment,
}

/// One step of a run.
#[derive(Debug, Clone, Copy, PartialEq, Eq, Structural)]
pub enum Step {
    /// Poll the ports. With `pre_stop`, the hook runs after the RX cores have exited and before the
    /// ports are stopped.
    Online { pre_stop: bool },
    /// Replay the capture.
    Offline,
    /// Run the hook.
    PreStop,
    /// There is nothing to run.
    NoRuntime,
}

/// The runtime.
#[derive(Debug)]
pub struct Runtime {
    /// The pools, in the order of the sockets.
    pub pools: Vec<PoolPlan>,
    pub online: bool,
    pub offline: bool,
    /// The software flow table is enabled.
    pub flow_table: bool,
}

/// The frame size to plan for: that of the online mode, or else of the offline mode.
pub open spec fn planned_mtu(config: RuntimeConfig, default_mtu: u16) -> u16 {
    match (config.online, config.offline) {
        (Some(online), _) => online.mtu,
        (None, Some(offline)) => offline.mtu,
        (None, None) => default_mtu,
    }
}

impl Runtime {
    /// What a run consists of.
    pub open spec fn steps(self, hooked: bool) -> Seq<Step> {
        if self.online {
            seq![Step::Online { pre_stop: hooked }]
        } else if self.offline {
            if hooked {
                seq![Step::Offline, Step::PreStop]
            } else {
                seq![Step::Offline]
            }
        } else {
            seq![Step::NoRuntime]
        }
    }

    /// The runtime is what the settings ask for.
    pub open spec fn follows(self, config: RuntimeConfig, default_mtu: u16) -> bool {
        &&& self.pools@ == config.socket_ids@.map_values(
            |socket_id: SocketId|
                PoolPlan {
                    socket_id,
                    mtu: planned_mtu(config, default_mtu),
                    split_hdr_size: SPLIT_HDR_SIZE,
                },
        )
        &&& self.online == (config.online is Some)
        &&& self.offline == (config.offline is Some)
        &&& self.flow_table == config.flow_table
    }

    /// Plan a runtime from the settings, `environment` being what initialising the environment
    /// abstraction layer returned: a negative number if it failed.
    pub fn new(config: &RuntimeConfig, default_mtu: u16, environment: i32) -> (runtime: Result<
        Runtime,
        RuntimeError,
    >)
        ensures
            match runtime {
                Ok(r) => environment >= 0 && r.follows(*config, default_mtu),
                Err(error) => environment < 0 && error == RuntimeError::Environment,
            },
    {
        if environment < 0 {
            return Err(RuntimeError::Environment);
        }
        let mtu: u16 = if let Some(online) = &config.online {
            online.mtu
        } else if let Some(offline) = &config.offline {
            offline.mtu
        } else {
            default_mtu
        };
        let mut pools: Vec<PoolPlan> = Vec::new();
        let mut i: usize = 0;
        while i < config.socket_ids.len()
            invariant
                i <= config.socket_ids@.len(),
                pools@.len() == i,
                forall|k: int|
                    0 <= k < i ==> #[trigger] pools@[k] == (PoolPlan {
                        socket_id: config.socket_ids@[k],
                        mtu,
                        split_hdr_size: SPLIT_HDR_SIZE,
                    }),
            decreases config.socket_ids@.len() - i,
        {
            pools.push(
                PoolPlan {
                    socket_id: config.socket_ids[i],
                    mtu,
                    split_hdr_size: SPLIT_HDR_SIZE,
                },
            );
            i = i + 1;
        }
        proof {
            assert(pools@ =~= config.socket_ids@.map_values(
                |socket_id: SocketId|
                    PoolPlan {
                        socket_id,
                        mtu: planned_mtu(*config, default_mtu),
                        split_hdr_size: SPLIT_HDR_SIZE,
                    },
            ));
        }
        Ok(
            Runtime {
                pools,
                online: config.online.is_some(),
                offline: config.offline.is_some(),
                flow_table: config.flow_table,
            },
        )
    }

    /// The steps of a run without a hook.
    pub fn run(&self) -> (steps: Vec<Step>)
        ensures
            steps@ == self.steps(false),
    {
        self.run_hooked(false)
    }

    /// The steps of a run with a hook that runs once the packets have been taken care of: after the
    /// RX cores have exited and before the ports are stopped, or after the replay.
    pub fn run_with_pre_stop(&self) -> (steps: Vec<Step>)
        ensures
            steps@ == self.steps(true),
    {
        self.run_hooked(true)
    }

    fn run_hooked(&self, hooked: bool) -> (steps: Vec<Step>)
        ensures
            steps@ == self.steps(hooked),
    {
        let mut steps: Vec<Step> = Vec::new();
        if self.online {
            steps.push(Step::Online { pre_stop: hooked });
        } else if self.offline {
            steps.push(Step::Offline);
            if hooked {
                steps.push(Step::PreStop);
            }
        } else {
            steps.push(Step::NoRuntime);
        }
        steps
    }
}

/// How often a run's steps run the hook.
pub open spec fn hooks_in(steps: Seq<Step>) -> nat
    decreases steps.len(),
{
    if steps.len() == 0 {
        0
    } else {
        hooks_in(steps.drop_last()) + if steps.last() == Step::PreStop || steps.last()
            == (Step::Online { pre_stop: true }) {
            1nat
        } else {
            0
        }
    }
}

/// A hook runs exactly once if there is anything to run, and as the last thing; without a hook none
/// runs.
pub proof fn law_the_hook_runs_once(runtime: Runtime)
    ensures
        runtime.online || runtime.offline ==> hooks_in(runtime.steps(true)) == 1,
        !runtime.online && !runtime.offline ==> hooks_in(runtime.steps(true)) == 0,
        hooks_in(runtime.steps(false)) == 0,
        runtime.online || runtime.offline ==> (runtime.steps(true).last() == Step::PreStop
            || runtime.steps(true).last() == (Step::Online { pre_stop: true })),
{
    reveal_with_fuel(hooks_in, 3);
    assert(runtime.steps(true).drop_last().drop_last() =~= Seq::empty() || runtime.steps(
        true,
    ).len() == 1);
}

/// A runtime plans one set of pools for every socket, in their order. Frames are those of the
/// online mode if there is one, else of the offline mode, and split headers are 64 bytes.
pub proof fn law_every_socket_gets_its_pools(
    runtime: Runtime,
    config: RuntimeConfig,
    default_mtu: u16,
    i: int,
)
    requires
        runtime.follows(config, default_mtu),
        0 <= i < config.socket_ids@.len(),
    ensures
        runtime.pools@.len() == config.socket_ids@.len(),
        runtime.pools@[i].socket_id == config.socket_ids@[i],
        runtime.pools@[i].split_hdr_size == 64,
        config.online matches Some(mode) ==> runtime.pools@[i].mtu == mode.mtu,
        config.online is None ==> (config.offline matches Some(mode) ==> runtime.pools@[i].mtu
            == mode.mtu),
        config.online is None && config.offline is None ==> runtime.pools@[i].mtu == default_mtu,
        runtime.flow_table == config.flow_table,
{
}

/// A run polls the ports if the online mode is set up, replays the capture if only the offline mode
/// is, and otherwise has nothing to run; it never does both.
pub proof fn law_a_run_is_online_or_offline(
    runtime: Runtime,
    config: RuntimeConfig,
    default_mtu: u16,
    hooked: bool,
)
    requires
        runtime.follows(config, default_mtu),
    ensures
        config.online is Some ==> runtime.steps(hooked).len() == 1 && runtime.steps(hooked)[0] is Online,
        config.online is None && config.offline is Some ==> runtime.steps(hooked)[0]
            == Step::Offline && !runtime.steps(hooked).contains(Step::Online { pre_stop: hooked }),
        config.online is None && config.offline is None ==> runtime.steps(hooked).len() == 1
            && runtime.steps(hooked)[0] == Step::NoRuntime,
{
}

} // verus!
