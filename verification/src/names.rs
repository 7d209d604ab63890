//! Names for healthbars: viewers claim names, and bosses and spawned enemies wear them.
use vstd::prelude::*;

pub mod client;
pub mod laws;
pub mod picks;
pub mod state;
pub mod templates;

pub use client::NameClient;
pub use state::NameClientState;

verus! {

/// A claim as the rules see it.
#[verifier::ext_equal]
pub struct ClaimModel {
    pub name: Seq<char>,
    pub amount: u32,
    pub ignore: bool,
    pub claimed: bool,
}

/// A viewer's claim to have a healthbar carry their name, with the amount given for it.
#[derive(Debug)]
pub struct NameClaim {
    pub name: String,
    pub amount: u32,
    pub ignore: bool,
    /// Whether the claim has been given to a healthbar here.
    pub claimed: bool,
}

impl View for NameClaim {
    type V = ClaimModel;

    open spec fn view(&self) -> ClaimModel {
        ClaimModel {
            name: self.name@,
            amount: self.amount,
            ignore: self.ignore,
            claimed: self.claimed,
        }
    }
}

impl Clone for NameClaim {
    fn clone(&self) -> (r: Self)
        ensures
            r == *self,
    {
        NameClaim {
            name: self.name.clone(),
            amount: self.amount,
            ignore: self.ignore,
            claimed: self.claimed,
        }
    }
}

impl Default for NameClaim {
    fn default() -> (r: Self)
        ensures
            r@ == (ClaimModel { name: seq![], amount: 0, ignore: false, claimed: false }),
    {
        NameClaim { name: String::new(), amount: 0, ignore: false, claimed: false }
    }
}

impl NameClaim {
    pub fn new(name: String, amount: u32) -> (r: Self)
        ensures
            r@ == (ClaimModel { name: name@, amount, ignore: false, claimed: false }),
    {
        NameClaim { name, amount, ignore: false, claimed: false }
    }

    /// Whether the claim can still be given to a healthbar.
    pub fn is_usable(&self) -> (r: bool)
        ensures
            r == picks::usable(self@),
    {
        self.amount > 0 && !self.ignore
    }
}

/// How healthbars that no spawned enemy owns are named.
#[derive(PartialEq, Eq, Structural, Debug, Clone, Copy)]
pub enum NameMode {
    /// Not at all.
    Off,
    /// With a numbered placeholder.
    Test,
    /// With claims, kept for as long as the cache lasts.
    Cache,
    /// With claims, asked for anew every time the boss appears.
    Fresh,
}

impl Default for NameMode {
    fn default() -> (r: Self)
        ensures
            r == NameMode::Off,
    {
        NameMode::Off
    }
}

/// The healthbar message that spawned enemies share.
pub const SPAWN_NAME_ID: i32 = 10104137;

/// What a healthbar name is remembered by.
#[derive(PartialEq, Eq, Structural, Debug, Clone, Copy)]
pub enum HealthbarKey {
    EntityId(u32),
    MsgId(i32),
}

/// A healthbar name as the rules see it.
#[verifier::ext_equal]
pub struct RewriteModel {
    pub claim: ClaimModel,
    pub name: Seq<char>,
    pub update: bool,
}

/// A healthbar's name and the claim it came from.
#[derive(Debug)]
pub struct HealthbarRewrite {
    /// The claim at the time the name was given.
    pub claim: NameClaim,
    pub name: String,
    /// Whether the server is told of the claim's use.
    pub update: bool,
}

impl View for HealthbarRewrite {
    type V = RewriteModel;

    open spec fn view(&self) -> RewriteModel {
        RewriteModel { claim: self.claim@, name: self.name@, update: self.update }
    }
}

impl Clone for HealthbarRewrite {
    fn clone(&self) -> (r: Self)
        ensures
            r == *self,
    {
        HealthbarRewrite {
            claim: self.claim.clone(),
            name: self.name.clone(),
            update: self.update,
        }
    }
}

/// What the server says about names.
#[derive(Debug)]
pub struct NameApiRequest {
    pub claims: Option<Vec<NameClaim>>,
    pub names: Option<Vec<NameCommand>>,
}

#[derive(Debug)]
pub enum NameCommand {
    SetNameMode { mode: NameMode },
    SetTiers { tiers: Vec<u32> },
    ClearNameCache,
}

} // verus!
