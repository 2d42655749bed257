pub mod entries;
pub mod invite;
pub mod root;
pub mod routines;
