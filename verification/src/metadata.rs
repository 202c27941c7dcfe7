use vstd::prelude::*;

verus! {

/// Metadata of one track, as shown to the user.  Reading the fields out of
/// an audio file's tag is the application's business; this type only
/// carries the plain values.
#[derive(Debug)]
pub struct Song {
    pub path: String,
    pub title: Option<String>,
    pub album: Option<String>,
    pub artists: Vec<String>,
    pub lyrics: Option<String>,
}

impl Song {
    pub fn new(
        path: String,
        title: Option<String>,
        album: Option<String>,
        artists: Vec<String>,
        lyrics: Option<String>,
    ) -> (r: Song)
        ensures
            r.path == path,
            r.title == title,
            r.album == album,
            r.artists == artists,
            r.lyrics == lyrics,
    {
        Song { path, title, album, artists, lyrics }
    }
}

} // verus!
