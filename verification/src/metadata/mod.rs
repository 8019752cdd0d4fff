//! Disc identifiers and the metadata services (AccurateRip, MusicBrainz,
//! Cover Art Archive): everything they decide, with the network left to the
//! caller.
pub mod accurip;
pub mod coverart;
pub mod cover_choice;
pub mod discid;
pub mod flow;
pub mod musicbrainz;
