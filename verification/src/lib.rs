use vstd::prelude::*;

pub mod bits;
pub mod gui;
pub mod history;
pub mod metadata;
pub mod player;
pub mod playlist;

pub use history::History;
pub use metadata::Song;
pub use player::PlayerState;
pub use playlist::Playlist;
pub use playlist::RepeatMode;

verus! {

/// Runs a side effect depending on a boolean, handing the boolean back so
/// that calls chain naturally.
pub trait BooleanConditional: Sized {
    fn ifdo<F: FnOnce() -> ()>(self, f: F) -> (r: Self)
        requires
            f.requires(()),
        ensures
            r == self,
    ;

    fn elsedo<F: FnOnce() -> ()>(self, f: F) -> (r: Self)
        requires
            f.requires(()),
        ensures
            r == self,
    ;
}

impl BooleanConditional for bool {
    fn ifdo<F: FnOnce() -> ()>(self, f: F) -> (r: bool) {
        if self {
            f();
        }
        self
    }

    fn elsedo<F: FnOnce() -> ()>(self, f: F) -> (r: bool) {
        if !self {
            f();
        }
        self
    }
}

} // verus!
