pub mod combat;
pub mod county;
pub mod curse;
pub mod drops;
pub mod expert;
pub mod layout;
pub mod line;
pub mod loadout;
pub mod piece;
pub mod rng;
pub mod stats;
pub mod tally;
pub mod text;
pub mod walks;
