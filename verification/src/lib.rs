pub mod classifier;
pub mod dates;
pub mod event;
pub mod geom;
pub mod history;
pub mod interaction;
pub mod layout;
pub mod mutation;
pub mod schedule;
pub mod storage;
pub mod trusted;
pub mod util;
