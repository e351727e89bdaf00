use vstd::prelude::*;
use vstd::string::StringSliceAdditionalSpecFns;

use crate::address::{derive_address, pda_of, Address};
use crate::errors::CronosError;

verus! {

/// The seed components that locate the config record.
pub open spec fn config_seeds() -> Seq<Seq<u8>> {
    seq!["config".spec_bytes()]
}

/// Global admin-tunable parameters: the admin identity, the per-execution
/// fees, and the pointer to the registry record.
#[derive(Clone, Copy, Debug, PartialEq, Eq, Structural)]
pub struct Config {
    pub admin: Address,
    pub bump: u8,
    pub node_fee: u64,
    pub program_fee: u64,
    pub registry_address: Address,
}

/// The settings an admin update replaces wholesale: there is no partial
/// update.
#[derive(Clone, Copy, Debug, PartialEq, Eq, Structural)]
pub struct ConfigSettings {
    pub admin: Address,
    pub node_fee: u64,
    pub program_fee: u64,
}

impl Config {
    /// The canonical storage address of the config record under `program`,
    /// with its bump.
    pub fn pda(program: &Address) -> (r: Result<(Address, u8), CronosError>)
        ensures
            r matches Ok(p) ==> pda_of(config_seeds(), *program) == Some(p),
            r matches Err(e) ==> pda_of(config_seeds(), *program) is None && e
                == CronosError::AddressSpaceExhausted,
    {
        let mut seeds: Vec<Vec<u8>> = Vec::new();
        seeds.push(vstd::slice::slice_to_vec("config".as_bytes()));
        proof {
            assert(seeds.deep_view() =~~= config_seeds());
        }
        derive_address(seeds, program)
    }

    /// Initialize the config record: the given admin, zero fees.
    pub fn new(&mut self, admin: Address, bump: u8) -> (r: Result<(), CronosError>)
        ensures
            r is Ok,
            *final(self) == (Config { admin, bump, node_fee: 0, program_fee: 0, ..*old(self) }),
    {
        self.admin = admin;
        self.bump = bump;
        self.node_fee = 0;
        self.program_fee = 0;
        Ok(())
    }

    /// Replace the admin-tunable settings.
    ///
    /// Succeeds if and only if the caller matches the stored admin;
    /// otherwise reports `NotAuthorizedAdmin` and changes nothing. On
    /// success admin and both fees are replaced wholesale; bump and the
    /// registry pointer are untouched.
    pub fn update(&mut self, admin: Address, settings: ConfigSettings) -> (r: Result<
        (),
        CronosError,
    >)
        ensures
            admin != old(self).admin ==> r == Err::<(), CronosError>(
                CronosError::NotAuthorizedAdmin,
            ) && *final(self) == *old(self),
            admin == old(self).admin ==> r is Ok && *final(self) == (Config {
                admin: settings.admin,
                node_fee: settings.node_fee,
                program_fee: settings.program_fee,
                ..*old(self)
            }),
    {
        if !(self.admin == admin) {
            return Err(CronosError::NotAuthorizedAdmin);
        }
        self.admin = settings.admin;
        self.node_fee = settings.node_fee;
        self.program_fee = settings.program_fee;
        Ok(())
    }
}

/// The typed context of an admin config update: the calling admin identity
/// and the config record it mutates.
#[derive(Clone, Copy, Debug, PartialEq, Eq, Structural)]
pub struct AdminConfigUpdate {
    pub admin: Address,
    pub config: Config,
}

/// Apply an admin settings update to its context.
pub fn handler(ctx: &mut AdminConfigUpdate, settings: ConfigSettings) -> (r: Result<
    (),
    CronosError,
>)
    ensures
        final(ctx).admin == old(ctx).admin,
        old(ctx).admin != old(ctx).config.admin ==> r == Err::<(), CronosError>(
            CronosError::NotAuthorizedAdmin,
        ) && final(ctx).config == old(ctx).config,
        old(ctx).admin == old(ctx).config.admin ==> r is Ok && final(ctx).config == (Config {
            admin: settings.admin,
            node_fee: settings.node_fee,
            program_fee: settings.program_fee,
            ..old(ctx).config
        }),
{
    let admin = ctx.admin;
    ctx.config.update(admin, settings)
}

} // verus!
