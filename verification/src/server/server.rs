//! Server assembly.

use vstd::prelude::*;

use crate::protocol::text;
use crate::protocol::text::{Component, Message};
use crate::protocol::types::ChunkPos;
use crate::server::config;
use crate::server::config::{ConfigError, ServerConfig};
use crate::server::player::{PlayerInfo, PlayerRegistry};
use crate::server::status::StatusCache;
use crate::world::block::BlockStates;
use crate::world::chunk;
use crate::world::chunk::{Chunk, HeightLimits};
use crate::world::generator::{ChunkGenerator, FlatGenerator, VoidGenerator};
use crate::world::shape;

verus! {

/// How many tick samples to keep: one minute at 20 Hz.
pub const TICK_WINDOW: usize = 1200;

/// How often to report tick health, in ticks.
pub const TICK_REPORT_INTERVAL: u64 = 600;

/// Everything that the connections share.
#[derive(Debug)]
pub struct ServerContext {
    pub config: ServerConfig,
    pub players: PlayerRegistry,
    pub status: StatusCache,
    pub states: BlockStates,
    pub limits: HeightLimits,
}

impl ServerContext {
    /// The registry and the status cache are well formed.
    pub open spec fn wf(&self) -> bool {
        self.players.wf() && self.status.wf()
    }
}

/// The superflat world that a server generates.
pub open spec fn superflat() -> FlatGenerator {
    FlatGenerator { surface_y: (-60) as i32, dirt_depth: 2 }
}

impl ServerContext {
    /// The chunk at the origin: of a superflat world, or of an empty one.
    pub fn spawn_chunk(&self) -> (chunk: Chunk)
        requires
            superflat().covers(self.limits, self.states),
            VoidGenerator.covers(self.limits, self.states),
        ensures
            ({
                let origin = ChunkPos { x: 0, z: 0 };
                if self.config.flat_world {
                    superflat().makes(origin, self.limits, self.states, chunk)
                } else {
                    VoidGenerator.makes(origin, self.limits, self.states, chunk)
                }
            }),
    {
        if self.config.flat_world {
            FlatGenerator::default().generate(ChunkPos::new(0, 0), self.limits, &self.states)
        } else {
            VoidGenerator.generate(ChunkPos::new(0, 0), self.limits, &self.states)
        }
    }
}

/// The server itself.
#[derive(Debug)]
pub struct Server {
    ctx: ServerContext,
}

impl Server {
    /// What the connections share.
    pub closed spec fn shared(&self) -> ServerContext {
        self.ctx
    }

    /// Builds a server from configuration that is fit for use: nobody is
    /// connected, and the status document shows the message of the day and the
    /// capacity. `bind_is_address` says whether the bind address parses as one.
    pub fn new(config: ServerConfig, bind_is_address: bool) -> (built: Result<Self, ConfigError>)
        ensures
            match config::fault(config, bind_is_address) {
                Some(why) => built is Err && built->Err_0 is Invalid && config::config_error_text(
                    built->Err_0,
                ) == why,
                None => built is Ok && ({
                    let ctx = built->Ok_0.shared();
                    &&& ctx.wf()
                    &&& ctx.config == config
                    &&& ctx.players@ == Map::<u128, PlayerInfo>::empty()
                    &&& ctx.status.motd() == (Message {
                        text: Some(config.motd@),
                        ..text::blank()
                    })
                    &&& ctx.status.capacity() == config.max_players
                    &&& ctx.status.icon() is None
                    &&& !ctx.status.secure_chat()
                    &&& forall|online: i32| #[trigger] ctx.status.held(online) is None
                    &&& ctx.status.built() == 0
                    &&& ctx.states == (BlockStates {
                        air: 0,
                        stone: 1,
                        dirt: 2,
                        grass_block: 3,
                        bedrock: 4,
                        total_states: 27_000,
                    })
                    &&& ctx.limits.min_y == -64 && ctx.limits.height == 384
                }),
            },
    {
        match config.validate(bind_is_address) {
            Err(e) => Err(e),
            Ok(()) => {
                let description = Component::text(config.motd.as_str().to_owned());
                let status = StatusCache::new(description, config.max_players);
                Ok(
                    Server {
                        ctx: ServerContext {
                            config,
                            players: PlayerRegistry::new(),
                            status,
                            states: BlockStates::placeholder(),
                            limits: HeightLimits::overworld(),
                        },
                    },
                )
            },
        }
    }

    /// What the connections share.
    #[must_use]
    pub fn context(&self) -> (ctx: &ServerContext)
        ensures
            *ctx == self.shared(),
    {
        &self.ctx
    }

    /// What the connections share, given away.
    #[must_use]
    pub fn into_context(self) -> (ctx: ServerContext)
        ensures
            ctx == self.shared(),
    {
        self.ctx
    }
}

/// Whether tick health is due for a report.
#[must_use]
pub fn report_is_due(total_ticks: u64) -> (due: bool)
    ensures
        due == (total_ticks % TICK_REPORT_INTERVAL == 0),
{
    total_ticks % TICK_REPORT_INTERVAL == 0
}

/// In a world whose bottom is at -64, the chunk at the origin of a superflat
/// server is bedrock there, stone above it, two layers of dirt, grass at -60, and
/// air above that.
pub proof fn law_spawn_layers(
    limits: HeightLimits,
    states: BlockStates,
    chunk: Chunk,
    x: usize,
    y: int,
    z: usize,
)
    requires
        superflat().makes(ChunkPos { x: 0, z: 0 }, limits, states, chunk),
        limits.min_y == -64,
        limits.height <= i32::MAX,
        limits.min_y <= y < limits.min_y + 16 * chunk.stack().len(),
        x < 16 && z < 16,
    ensures
        ({
            let block = chunk::block_of(chunk.stack(), limits, x, y, z, states.air);
            &&& y == -64 ==> block == states.bedrock
            &&& y == -63 ==> block == states.stone
            &&& -62 <= y <= -61 ==> block == states.dirt
            &&& y == -60 ==> block == states.grass_block
            &&& y > -60 ==> block == states.air
        }),
        chunk.place() == (ChunkPos { x: 0, z: 0 }),
{
    shape::law_flat_world(
        superflat(),
        ChunkPos { x: 0, z: 0 },
        limits,
        states,
        chunk,
        x,
        y,
        z,
    );
}

/// Tick health is reported every 600 ticks, which is half of the window.
pub proof fn law_reports_are_regular(ticks: u64, reports: int)
    requires
        ticks == 600 * reports,
    ensures
        ticks % TICK_REPORT_INTERVAL == 0,
        forall|more: u64|
            0 < more < 600 && ticks + more <= u64::MAX ==> #[trigger] ((ticks + more) as u64
                % TICK_REPORT_INTERVAL) != 0,
        2 * TICK_REPORT_INTERVAL == TICK_WINDOW,
{
}

} // verus!
