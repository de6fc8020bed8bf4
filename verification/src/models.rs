use vstd::prelude::*;

verus! {

/// A stored audio track record.
///
/// `bpm` carries the analyzer's tempo as the IEEE 754 bit pattern of the
/// 64-bit value it reported; the store never computes with the tempo, it
/// only keeps it, so the bits are stored and returned unchanged.
/// `date_created` is a unix timestamp in seconds.
pub struct Beat {
    pub id: i32,
    pub title: String,
    pub artist: Option<String>,
    pub album: Option<String>,
    pub genre: Option<String>,
    pub year: Option<i32>,
    pub track_number: Option<i32>,
    pub duration: Option<i32>,
    pub composer: Option<String>,
    pub lyricist: Option<String>,
    pub cover_art: Option<String>,
    pub comments: Option<String>,
    pub file_path: String,
    pub bpm: Option<u64>,
    pub musical_key: Option<String>,
    pub date_created: i64,
    pub row_order: i32,
}

/// The values handed to a beat insert: everything a [`Beat`] holds except
/// the store-assigned id and the user-controlled row order.
pub struct NewBeat {
    pub title: String,
    pub artist: Option<String>,
    pub album: Option<String>,
    pub genre: Option<String>,
    pub year: Option<i32>,
    pub track_number: Option<i32>,
    pub duration: Option<i32>,
    pub composer: Option<String>,
    pub lyricist: Option<String>,
    pub cover_art: Option<String>,
    pub comments: Option<String>,
    pub file_path: String,
    pub bpm: Option<u64>,
    pub musical_key: Option<String>,
    pub date_created: i64,
}

/// A stored collection record. `date_created` is a unix timestamp in
/// seconds; `date_played` is kept as the free-form text the caller gave.
pub struct BeatCollection {
    pub id: i32,
    pub set_name: String,
    pub venue: Option<String>,
    pub city: Option<String>,
    pub state_name: Option<String>,
    pub date_played: Option<String>,
    pub date_created: i64,
}

/// The values handed to a collection insert.
pub struct NewBeatCollection {
    pub set_name: String,
    pub venue: Option<String>,
    pub city: Option<String>,
    pub state_name: Option<String>,
    pub date_played: Option<String>,
    pub date_created: i64,
}

/// One membership row: the composite key linking a collection and a beat.
#[derive(Clone, Copy, PartialEq, Eq, Structural)]
pub struct Membership {
    pub collection_id: i32,
    pub beat_id: i32,
}

/// One entry of a reorder batch: the beat to move and its new position.
#[derive(Clone, Copy, PartialEq, Eq, Structural)]
pub struct RowOrder {
    pub row_id: i32,
    pub row_number: i32,
}

/// A narrow update for one beat: the id that names the row and, for each
/// user-editable optional field, either a replacement value or `None` to
/// leave the stored value untouched.
pub struct BeatChangeset {
    pub id: i32,
    pub artist: Option<String>,
    pub album: Option<String>,
    pub genre: Option<String>,
    pub year: Option<i32>,
    pub track_number: Option<i32>,
    pub composer: Option<String>,
    pub lyricist: Option<String>,
    pub cover_art: Option<String>,
    pub comments: Option<String>,
}

/// A narrow update for one collection: the id that names the row and,
/// for each optional field, either a replacement value or `None` to
/// leave the stored value untouched.
pub struct BeatCollectionChangeset {
    pub id: i32,
    pub venue: Option<String>,
    pub city: Option<String>,
    pub state_name: Option<String>,
    pub date_played: Option<String>,
}

fn clone_opt_string(o: &Option<String>) -> (r: Option<String>)
    ensures
        r == *o,
{
    match o {
        Some(s) => Some(s.clone()),
        None => None,
    }
}

impl Clone for Beat {
    fn clone(&self) -> (r: Self)
        ensures
            r == *self,
    {
        Beat {
            id: self.id,
            title: self.title.clone(),
            artist: clone_opt_string(&self.artist),
            album: clone_opt_string(&self.album),
            genre: clone_opt_string(&self.genre),
            year: self.year,
            track_number: self.track_number,
            duration: self.duration,
            composer: clone_opt_string(&self.composer),
            lyricist: clone_opt_string(&self.lyricist),
            cover_art: clone_opt_string(&self.cover_art),
            comments: clone_opt_string(&self.comments),
            file_path: self.file_path.clone(),
            bpm: self.bpm,
            musical_key: clone_opt_string(&self.musical_key),
            date_created: self.date_created,
            row_order: self.row_order,
        }
    }
}

impl Clone for BeatCollection {
    fn clone(&self) -> (r: Self)
        ensures
            r == *self,
    {
        BeatCollection {
            id: self.id,
            set_name: self.set_name.clone(),
            venue: clone_opt_string(&self.venue),
            city: clone_opt_string(&self.city),
            state_name: clone_opt_string(&self.state_name),
            date_played: clone_opt_string(&self.date_played),
            date_created: self.date_created,
        }
    }
}

} // verus!
