pub mod entries;
pub mod invites;
pub mod routines;
pub mod sessions;
pub mod users;
