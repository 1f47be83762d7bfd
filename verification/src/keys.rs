//! Well-known identifiers of the two engines.
use vstd::prelude::*;

verus! {

/// Identifies a consensus engine.
pub type ConsensusEngineId = [u8; 4];

/// The `ConsensusEngineId` of PBFT: "PBFT".
pub const PBFT_ENGINE_ID: ConsensusEngineId = [0x50, 0x42, 0x46, 0x54];

/// The key type of PBFT keys: "pbft".
pub const PBFT_KEY_TYPE: [u8; 4] = [0x70, 0x62, 0x66, 0x74];

/// The storage key for the current set of weighted PBFT authorities.
/// The value stored is an encoded list of authorities with version.
pub const PBFT_AUTHORITIES_KEY: &'static str = ":pbft_authorities";

/// The `ConsensusEngineId` of Jasmine: "JSME".
pub const JASMINE_ENGINE_ID: ConsensusEngineId = [0x4a, 0x53, 0x4d, 0x45];

/// The key type of Jasmine keys: "JSME".
pub const JASMINE_KEY_TYPE: [u8; 4] = [0x4a, 0x53, 0x4d, 0x45];

/// The storage key for the current set of weighted Jasmine authorities.
pub const JASMINE_AUTHORITIES_KEY: &'static str = ":jasmine_authorities";

} // verus!
