//! The enrichment step of an ingest.
//!
//! A track moves through four states: persisted (the row exists, its
//! derived fields unset), analyzing (the external analyzer runs on its
//! file), enriched (the analyzer's key and tempo are written onto the
//! row), or failed (the analyzer's error is surfaced while the row stays
//! persisted, its derived fields unset). The analyzer itself runs
//! outside the library; only its outcome, as plain values, comes through
//! here, so every contract holds whatever the analyzer did.

use vstd::assert_seqs_equal;
use vstd::prelude::*;

use crate::catalog::{
    find_beat_index, has_beat_id, lemma_wf_same_ids, spec_update_beat_row, Catalog,
};
use crate::error::CatalogError;
use crate::models::Beat;

verus! {

/// What the external analyzer reports for one file: the musical key and
/// the tempo, the latter as the IEEE 754 bit pattern of the 64-bit value
/// it produced (the store keeps the bits unchanged, it never computes
/// with the tempo).
pub struct Analysis {
    pub musical_key: String,
    pub bpm: u64,
}

/// A beat row after a successful enrichment: only the two derived
/// fields change.
pub open spec fn spec_enrich(b: Beat, musical_key: String, bpm: u64) -> Beat {
    Beat { musical_key: Some(musical_key), bpm: Some(bpm), ..b }
}

/// Commit an analyzer result onto the beat it belongs to, writing only
/// `musical_key` and `bpm`. Fails with `NotFound`, and changes nothing,
/// when no beat has the id.
///
/// The operation is keyed by the beat id and depends only on its
/// arguments, so a failed enrichment can be retried without touching
/// the already-committed row any other way.
pub fn apply_analysis(cat: &mut Catalog, beat_id: i32, analysis: Analysis) -> (r: Result<
    (),
    CatalogError,
>)
    requires
        old(cat).wf(),
    ensures
        final(cat).wf(),
        (r is Ok <==> has_beat_id(old(cat).beats@, beat_id)),
        (r is Err ==> r == Err::<(), CatalogError>(CatalogError::NotFound) && *final(cat) == *old(cat)),
        (r is Ok ==> final(cat).beats@ == spec_update_beat_row(
            old(cat).beats@,
            beat_id,
            (|b: Beat| spec_enrich(b, analysis.musical_key, analysis.bpm)),
        ) && final(cat).collections@ == old(cat).collections@ && final(cat).memberships@ == old(cat).memberships@
            && final(cat).next_beat_id == old(cat).next_beat_id && final(cat).next_collection_id
            == old(cat).next_collection_id),
{
    let i = match find_beat_index(&cat.beats, beat_id) {
        Some(i) => i,
        None => {
            return Err(CatalogError::NotFound);
        },
    };
    let b = cat.beats.remove(i);
    let nb = Beat {
        id: b.id,
        title: b.title,
        artist: b.artist,
        album: b.album,
        genre: b.genre,
        year: b.year,
        track_number: b.track_number,
        duration: b.duration,
        composer: b.composer,
        lyricist: b.lyricist,
        cover_art: b.cover_art,
        comments: b.comments,
        file_path: b.file_path,
        bpm: Some(analysis.bpm),
        musical_key: Some(analysis.musical_key),
        date_created: b.date_created,
        row_order: b.row_order,
    };
    cat.beats.insert(i, nb);
    proof {
        let pre = old(cat).beats@;
        let f = (|b: Beat| spec_enrich(b, analysis.musical_key, analysis.bpm));
        assert_seqs_equal!(
            cat.beats@ == spec_update_beat_row(pre, beat_id, f),
            j => {
                if j < i {
                    assert(cat.beats@[j] == pre[j]);
                    assert(pre[j].id != beat_id);
                } else if j == i {
                    assert(cat.beats@[j] == nb);
                } else {
                    assert(cat.beats@[j] == pre.remove(i as int)[j - 1]);
                    assert(pre.remove(i as int)[j - 1] == pre[j]);
                    assert(pre[j].id != beat_id);
                }
            }
        );
        assert forall|k: int|
            0 <= k < cat.beats@.len() implies (#[trigger] cat.beats@[k].id)
            == old(cat).beats@[k].id by {
            assert(cat.beats@[k] == spec_update_beat_row(old(cat).beats@, beat_id, f)[k]);
        }
        lemma_wf_same_ids(*old(cat), *cat);
    }
    Ok(())
}

/// Finish an ingest once the analyzer has answered, merging its outcome
/// into the already-committed row.
///
/// On a successful analysis the derived fields are written as in
/// `apply_analysis`. On an analyzer failure the catalog is left exactly
/// as it was — the row stays committed, its derived fields unset — and
/// the failure is surfaced to the caller as `AnalyzerError`: an error
/// result from an ingest does not mean nothing was written.
pub fn finish_ingest(cat: &mut Catalog, beat_id: i32, outcome: Result<Analysis, String>) -> (r:
    Result<(), CatalogError>)
    requires
        old(cat).wf(),
    ensures
        final(cat).wf(),
        (match outcome {
            Ok(analysis) => {
                &&& (r is Ok <==> has_beat_id(old(cat).beats@, beat_id))
                &&& (r is Err ==> r == Err::<(), CatalogError>(CatalogError::NotFound) && *final(cat)
                    == *old(cat))
                &&& (r is Ok ==> final(cat).beats@ == spec_update_beat_row(
                    old(cat).beats@,
                    beat_id,
                    (|b: Beat| spec_enrich(b, analysis.musical_key, analysis.bpm)),
                ) && final(cat).collections@ == old(cat).collections@ && final(cat).memberships@
                    == old(cat).memberships@ && final(cat).next_beat_id == old(cat).next_beat_id
                    && final(cat).next_collection_id == old(cat).next_collection_id)
            },
            Err(message) => {
                &&& *final(cat) == *old(cat)
                &&& r == Err::<(), CatalogError>(CatalogError::AnalyzerError(message))
            },
        }),
{
    match outcome {
        Ok(analysis) => apply_analysis(cat, beat_id, analysis),
        Err(message) => Err(CatalogError::AnalyzerError(message)),
    }
}

} // verus!
