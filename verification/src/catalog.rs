use vstd::assert_seqs_equal;
use vstd::prelude::*;

use crate::clock::current_timestamp;
use crate::error::CatalogError;
use crate::models::{
    Beat, BeatChangeset, BeatCollection, BeatCollectionChangeset, Membership, NewBeat,
    NewBeatCollection, RowOrder,
};
use crate::probe::{duration_from_params, spec_probed_duration, ProbeParams};

verus! {

/// Whether some beat in `beats` carries the id.
pub open spec fn has_beat_id(beats: Seq<Beat>, id: i32) -> bool {
    exists|i: int| 0 <= i < beats.len() && beats[i].id == id
}

/// Whether some collection in `collections` carries the id.
pub open spec fn has_collection_id(collections: Seq<BeatCollection>, id: i32) -> bool {
    exists|i: int| 0 <= i < collections.len() && collections[i].id == id
}

/// Whether the membership relation holds the (collection, beat) pair.
pub open spec fn has_pair(memberships: Seq<Membership>, collection_id: i32, beat_id: i32) -> bool {
    exists|i: int|
        0 <= i < memberships.len() && memberships[i].collection_id == collection_id
            && memberships[i].beat_id == beat_id
}

/// The exclusive-access catalog store: three relations and the counters
/// from which fresh ids are assigned.
///
/// All operations go through one `&mut` handle, so they serialize; the
/// host is expected to guard the value with its own mutual exclusion.
///
/// Deleting a row that is already absent is a success for every delete
/// operation of this store (beats, collections, memberships alike).
pub struct Catalog {
    pub beats: Vec<Beat>,
    pub collections: Vec<BeatCollection>,
    pub memberships: Vec<Membership>,
    pub next_beat_id: i32,
    pub next_collection_id: i32,
}

impl Catalog {
    /// The store's invariant: ids are at least 1, unique, and below the
    /// counter that will assign the next one; membership pairs are unique
    /// and both of their foreign keys reference existing rows.
    pub open spec fn wf(self) -> bool {
        &&& 1 <= self.next_beat_id
        &&& 1 <= self.next_collection_id
        &&& (forall|i: int|
            0 <= i < self.beats@.len() ==> 1 <= (#[trigger] self.beats@[i].id)
                < self.next_beat_id)
        &&& (forall|i: int, j: int|
            0 <= i < j < self.beats@.len() ==> self.beats@[i].id != self.beats@[j].id)
        &&& (forall|i: int|
            0 <= i < self.collections@.len() ==> 1 <= (#[trigger] self.collections@[i].id)
                < self.next_collection_id)
        &&& (forall|i: int, j: int|
            0 <= i < j < self.collections@.len() ==> self.collections@[i].id
                != self.collections@[j].id)
        &&& (forall|i: int, j: int|
            0 <= i < j < self.memberships@.len() ==> !(self.memberships@[i].collection_id
                == self.memberships@[j].collection_id && self.memberships@[i].beat_id
                == self.memberships@[j].beat_id))
        &&& (forall|i: int|
            0 <= i < self.memberships@.len() ==> has_beat_id(
                self.beats@,
                (#[trigger] self.memberships@[i]).beat_id,
            ) && has_collection_id(self.collections@, self.memberships@[i].collection_id))
    }

    /// A fresh, empty store.
    pub fn new() -> (cat: Catalog)
        ensures
            cat.wf(),
            cat.beats@ =~= Seq::<Beat>::empty(),
            cat.collections@ =~= Seq::<BeatCollection>::empty(),
            cat.memberships@ =~= Seq::<Membership>::empty(),
            cat.next_beat_id == 1,
            cat.next_collection_id == 1,
    {
        Catalog {
            beats: Vec::new(),
            collections: Vec::new(),
            memberships: Vec::new(),
            next_beat_id: 1,
            next_collection_id: 1,
        }
    }
}

/// The id a well-formed catalog's counter will hand out next is strictly
/// above every stored beat's id: a successful insert returns an id that
/// is previously unused, and ids grow monotonically.
pub proof fn lemma_next_beat_id_fresh(cat: Catalog)
    requires
        cat.wf(),
    ensures
        forall|i: int| 0 <= i < cat.beats@.len() ==> (#[trigger] cat.beats@[i].id)
            < cat.next_beat_id,
{
}

/// Linear scan for the position of the beat with the given id.
pub(crate) fn find_beat_index(beats: &Vec<Beat>, id: i32) -> (r: Option<usize>)
    ensures
        (match r {
            Some(i) => i < beats@.len() && beats@[i as int].id == id,
            None => !has_beat_id(beats@, id),
        }),
{
    let mut i: usize = 0;
    while i < beats.len()
        invariant
            i <= beats@.len(),
            forall|j: int| 0 <= j < i ==> beats@[j].id != id,
        decreases beats@.len() - i,
    {
        if beats[i].id == id {
            return Some(i);
        }
        i = i + 1;
    }
    None
}

/// The beat row that inserting `nb` under the id `id` creates.
pub open spec fn spec_beat_of(nb: NewBeat, id: i32) -> Beat {
    Beat {
        id,
        title: nb.title,
        artist: nb.artist,
        album: nb.album,
        genre: nb.genre,
        year: nb.year,
        track_number: nb.track_number,
        duration: nb.duration,
        composer: nb.composer,
        lyricist: nb.lyricist,
        cover_art: nb.cover_art,
        comments: nb.comments,
        file_path: nb.file_path,
        bpm: nb.bpm,
        musical_key: nb.musical_key,
        date_created: nb.date_created,
        row_order: 0,
    }
}

/// Insert `nb` as a new beat row. The store assigns the next id and a
/// starting row order of 0. The title and the file path are required:
/// an empty one is a constraint violation and nothing is written.
pub fn insert_beat(cat: &mut Catalog, nb: NewBeat) -> (r: Result<Beat, CatalogError>)
    requires
        old(cat).wf(),
        old(cat).next_beat_id < i32::MAX,
    ensures
        final(cat).wf(),
        (r is Ok <==> (nb.title@.len() > 0 && nb.file_path@.len() > 0)),
        (r is Err ==> r == Err::<Beat, CatalogError>(CatalogError::ConstraintViolation)
            && *final(cat) == *old(cat)),
        (r is Ok ==> ({
            let b = r->Ok_0;
            &&& b == spec_beat_of(nb, old(cat).next_beat_id)
            &&& final(cat).beats@ == old(cat).beats@.push(b)
            &&& final(cat).collections@ == old(cat).collections@
            &&& final(cat).memberships@ == old(cat).memberships@
            &&& final(cat).next_beat_id == old(cat).next_beat_id + 1
            &&& final(cat).next_collection_id == old(cat).next_collection_id
            &&& (forall|i: int|
                0 <= i < old(cat).beats@.len() ==> (#[trigger] old(cat).beats@[i].id) < b.id)
        })),
{
    if nb.title.as_str().is_empty() || nb.file_path.as_str().is_empty() {
        return Err(CatalogError::ConstraintViolation);
    }
    proof {
        lemma_next_beat_id_fresh(*cat);
    }
    let id = cat.next_beat_id;
    let b = Beat {
        id,
        title: nb.title,
        artist: nb.artist,
        album: nb.album,
        genre: nb.genre,
        year: nb.year,
        track_number: nb.track_number,
        duration: nb.duration,
        composer: nb.composer,
        lyricist: nb.lyricist,
        cover_art: nb.cover_art,
        comments: nb.comments,
        file_path: nb.file_path,
        bpm: nb.bpm,
        musical_key: nb.musical_key,
        date_created: nb.date_created,
        row_order: 0,
    };
    cat.beats.push(b.clone());
    cat.next_beat_id = cat.next_beat_id + 1;
    proof {
        let pre = *old(cat);
        let post = *cat;
        assert forall|i: int|
            0 <= i < post.memberships@.len() implies has_beat_id(
            post.beats@,
            (#[trigger] post.memberships@[i]).beat_id,
        ) && has_collection_id(post.collections@, post.memberships@[i].collection_id) by {
            let bid = pre.memberships@[i].beat_id;
            let w = choose|k: int| 0 <= k < pre.beats@.len() && pre.beats@[k].id == bid;
            assert(post.beats@[w].id == bid);
        }
    }
    Ok(b)
}

/// What both ingest entry points guarantee: success exactly on a
/// non-empty title and file path, no change on failure, and on success a
/// fresh-id row holding only the given values and the probed duration.
/// The created row's timestamp is not pinned here; `add_beat_dated`
/// additionally fixes it.
pub open spec fn spec_added_beat(
    pre: Catalog,
    post: Catalog,
    r: Result<Beat, CatalogError>,
    title: Seq<char>,
    file_path: Seq<char>,
    duration: Option<i32>,
) -> bool {
    &&& post.wf()
    &&& (r is Ok <==> (title.len() > 0 && file_path.len() > 0))
    &&& (r is Err ==> r == Err::<Beat, CatalogError>(CatalogError::ConstraintViolation) && post
        == pre)
    &&& (r is Ok ==> ({
        let b = r->Ok_0;
        &&& b.id == pre.next_beat_id
        &&& b.title@ == title
        &&& b.file_path@ == file_path
        &&& b.artist is None
        &&& b.album is None
        &&& b.genre is None
        &&& b.year is None
        &&& b.track_number is None
        &&& b.composer is None
        &&& b.lyricist is None
        &&& b.cover_art is None
        &&& b.comments is None
        &&& b.bpm is None
        &&& b.musical_key is None
        &&& b.duration == duration
        &&& b.row_order == 0
        &&& post.beats@ == pre.beats@.push(b)
        &&& post.collections@ == pre.collections@
        &&& post.memberships@ == pre.memberships@
        &&& post.next_beat_id == pre.next_beat_id + 1
        &&& post.next_collection_id == pre.next_collection_id
        &&& (forall|i: int|
            0 <= i < pre.beats@.len() ==> (#[trigger] pre.beats@[i].id) < b.id)
    }))
}

/// Ingest a beat with an explicit creation timestamp: derive the
/// duration from the probed container parameters (best-effort, never
/// fatal) and insert the row. The host reads the file and parses its
/// header; `probed` is `None` when the file was missing, unreadable or
/// not a recognized container.
pub fn add_beat_dated(
    cat: &mut Catalog,
    title: &str,
    file_path: &str,
    probed: Option<ProbeParams>,
    date_created: i64,
) -> (r: Result<Beat, CatalogError>)
    requires
        old(cat).wf(),
        old(cat).next_beat_id < i32::MAX,
    ensures
        spec_added_beat(*old(cat), *final(cat), r, title@, file_path@, spec_probed_duration(probed)),
        (r is Ok ==> r->Ok_0.date_created == date_created),
{
    let calculated_duration: Option<i32> = duration_from_params(probed);
    let nb = NewBeat {
        title: title.to_owned(),
        artist: None,
        album: None,
        genre: None,
        year: None,
        track_number: None,
        duration: calculated_duration,
        composer: None,
        lyricist: None,
        cover_art: None,
        comments: None,
        file_path: file_path.to_owned(),
        bpm: None,
        musical_key: None,
        date_created,
    };
    insert_beat(cat, nb)
}

/// Ingest a beat, stamping it with the current wall-clock time. Exactly
/// `add_beat_dated` otherwise; the timestamp is whatever the clock gave.
pub fn add_beat(cat: &mut Catalog, title: &str, file_path: &str, probed: Option<ProbeParams>) -> (r:
    Result<Beat, CatalogError>)
    requires
        old(cat).wf(),
        old(cat).next_beat_id < i32::MAX,
    ensures
        spec_added_beat(*old(cat), *final(cat), r, title@, file_path@, spec_probed_duration(probed)),
{
    let now = current_timestamp();
    add_beat_dated(cat, title, file_path, probed, now)
}

/// `b` with its display position replaced.
pub open spec fn spec_set_order(b: Beat, row_number: i32) -> Beat {
    Beat { row_order: row_number, ..b }
}

/// One reorder entry applied to the beat relation: the row carrying the
/// entry's id (if any) gets the new position, every other row is kept.
pub open spec fn spec_apply_order(beats: Seq<Beat>, o: RowOrder) -> Seq<Beat> {
    Seq::new(
        beats.len(),
        |i: int|
            if beats[i].id == o.row_id {
                spec_set_order(beats[i], o.row_number)
            } else {
                beats[i]
            },
    )
}

/// The first `n` entries of a reorder batch applied one at a time, in
/// batch order.
pub open spec fn spec_apply_orders(beats: Seq<Beat>, orders: Seq<RowOrder>, n: int) -> Seq<Beat>
    decreases n,
{
    if n <= 0 {
        beats
    } else {
        spec_apply_order(spec_apply_orders(beats, orders, n - 1), orders[n - 1])
    }
}

/// Whether the first `n` entries of the batch all name existing beats.
pub open spec fn orders_valid_to(beats: Seq<Beat>, orders: Seq<RowOrder>, n: int) -> bool {
    forall|k: int| 0 <= k < n ==> has_beat_id(beats, (#[trigger] orders[k]).row_id)
}

/// Two beat relations of equal shape: same length, same id at each
/// position.
pub open spec fn same_ids(a: Seq<Beat>, b: Seq<Beat>) -> bool {
    a.len() == b.len() && (forall|i: int| 0 <= i < a.len() ==> (#[trigger] a[i]).id == b[i].id)
}

proof fn lemma_same_ids_has(a: Seq<Beat>, b: Seq<Beat>, id: i32)
    requires
        same_ids(a, b),
    ensures
        has_beat_id(a, id) == has_beat_id(b, id),
{
    if has_beat_id(a, id) {
        let i = choose|i: int| 0 <= i < a.len() && a[i].id == id;
        assert(b[i].id == id);
    }
    if has_beat_id(b, id) {
        let i = choose|i: int| 0 <= i < b.len() && b[i].id == id;
        assert(a[i].id == id);
    }
}

/// A catalog whose beat relation kept its shape (ids and positions),
/// with everything else untouched, is still well formed.
pub(crate) proof fn lemma_wf_same_ids(pre: Catalog, post: Catalog)
    requires
        pre.wf(),
        same_ids(post.beats@, pre.beats@),
        post.collections@ == pre.collections@,
        post.memberships@ == pre.memberships@,
        post.next_beat_id == pre.next_beat_id,
        post.next_collection_id == pre.next_collection_id,
    ensures
        post.wf(),
{
    assert forall|i: int|
        0 <= i < post.memberships@.len() implies has_beat_id(
        post.beats@,
        (#[trigger] post.memberships@[i]).beat_id,
    ) && has_collection_id(post.collections@, post.memberships@[i].collection_id) by {
        lemma_same_ids_has(post.beats@, pre.beats@, post.memberships@[i].beat_id);
    }
}

/// Give one beat its new display position, in place. Nothing but the
/// named row's `row_order` changes; an unknown id changes nothing.
fn set_beat_row_order(beats: &mut Vec<Beat>, o: RowOrder) -> (found: bool)
    requires
        forall|i: int, j: int|
            0 <= i < j < old(beats)@.len() ==> old(beats)@[i].id != old(beats)@[j].id,
    ensures
        found == has_beat_id(old(beats)@, o.row_id),
        final(beats)@ == spec_apply_order(old(beats)@, o),
        !found ==> final(beats)@ == old(beats)@,
{
    match find_beat_index(beats, o.row_id) {
        None => {
            proof {
                assert_seqs_equal!(beats@ == spec_apply_order(beats@, o), j => {
                    assert(beats@[j].id != o.row_id);
                });
            }
            false
        },
        Some(i) => {
            let b = beats.remove(i);
            let nb = Beat { row_order: o.row_number, ..b };
            beats.insert(i, nb);
            proof {
                let pre = old(beats)@;
                assert_seqs_equal!(beats@ == spec_apply_order(pre, o), j => {
                    if j < i {
                        assert(beats@[j] == pre[j]);
                        assert(pre[j].id != o.row_id);
                    } else if j == i {
                        assert(beats@[j] == nb);
                    } else {
                        assert(beats@[j] == pre.remove(i as int)[j - 1]);
                        assert(pre.remove(i as int)[j - 1] == pre[j]);
                        assert(pre[j].id != o.row_id);
                    }
                });
            }
            true
        },
    }
}

/// Apply a batch of display-position updates, one entry at a time, in
/// the order given.
///
/// The batch is not atomic: entries are committed as they are applied,
/// so when an entry names a beat that does not exist, everything before
/// it in the batch stays committed, the operation stops there with
/// `NotFound`, and nothing after it is applied. An empty batch succeeds
/// and changes nothing.
pub fn save_row_order(cat: &mut Catalog, row_number: Vec<RowOrder>) -> (r: Result<
    (),
    CatalogError,
>)
    requires
        old(cat).wf(),
    ensures
        final(cat).wf(),
        final(cat).collections@ == old(cat).collections@,
        final(cat).memberships@ == old(cat).memberships@,
        final(cat).next_beat_id == old(cat).next_beat_id,
        final(cat).next_collection_id == old(cat).next_collection_id,
        (r is Ok <==> orders_valid_to(
            old(cat).beats@,
            row_number@,
            row_number@.len() as int,
        )),
        (r is Ok ==> final(cat).beats@ == spec_apply_orders(
            old(cat).beats@,
            row_number@,
            row_number@.len() as int,
        )),
        (r is Err ==> r == Err::<(), CatalogError>(CatalogError::NotFound) && (exists|k: int|
            0 <= k < row_number@.len() && orders_valid_to(old(cat).beats@, row_number@, k)
                && !has_beat_id(old(cat).beats@, (#[trigger] row_number@[k]).row_id)
                && final(cat).beats@ == spec_apply_orders(old(cat).beats@, row_number@, k))),
{
    let mut k: usize = 0;
    while k < row_number.len()
        invariant
            old(cat).wf(),
            k <= row_number@.len(),
            orders_valid_to(old(cat).beats@, row_number@, k as int),
            cat.beats@ == spec_apply_orders(old(cat).beats@, row_number@, k as int),
            same_ids(cat.beats@, old(cat).beats@),
            cat.collections@ == old(cat).collections@,
            cat.memberships@ == old(cat).memberships@,
            cat.next_beat_id == old(cat).next_beat_id,
            cat.next_collection_id == old(cat).next_collection_id,
        decreases row_number@.len() - k,
    {
        let o = row_number[k];
        proof {
            assert forall|i: int, j: int|
                0 <= i < j < cat.beats@.len() implies cat.beats@[i].id != cat.beats@[j].id by {
                assert(cat.beats@[i].id == old(cat).beats@[i].id);
                assert(cat.beats@[j].id == old(cat).beats@[j].id);
            }
        }
        let ghost pre_step = cat.beats@;
        let found = set_beat_row_order(&mut cat.beats, o);
        proof {
            lemma_same_ids_has(pre_step, old(cat).beats@, o.row_id);
            assert forall|i: int|
                0 <= i < cat.beats@.len() implies (#[trigger] cat.beats@[i].id) == old(cat).beats@[i].id by {
                assert(cat.beats@[i] == spec_apply_order(pre_step, o)[i]);
            }
        }
        if !found {
            proof {
                lemma_wf_same_ids(*old(cat), *cat);
                assert(orders_valid_to(old(cat).beats@, row_number@, k as int)
                    && !has_beat_id(old(cat).beats@, row_number@[k as int].row_id) && cat.beats@
                    == spec_apply_orders(old(cat).beats@, row_number@, k as int));
            }
            return Err(CatalogError::NotFound);
        }
        k = k + 1;
        proof {
            assert(cat.beats@ == spec_apply_orders(old(cat).beats@, row_number@, k as int));
        }
    }
    proof {
        lemma_wf_same_ids(*old(cat), *cat);
    }
    Ok(())
}

/// The predicate a beat delete filters the beat relation with: keep
/// every row whose id is not the deleted one.
pub open spec fn keep_beat(id: i32) -> spec_fn(Beat) -> bool {
    |b: Beat| b.id != id
}

/// Keep every membership row that does not reference the deleted beat.
pub open spec fn keep_membership_of_beat(id: i32) -> spec_fn(Membership) -> bool {
    |m: Membership| m.beat_id != id
}

/// Keep every membership row that does not belong to the deleted
/// collection.
pub open spec fn keep_membership_of_collection(id: i32) -> spec_fn(Membership) -> bool {
    |m: Membership| m.collection_id != id
}

/// Keep every collection row whose id is not the deleted one.
pub open spec fn keep_collection(id: i32) -> spec_fn(BeatCollection) -> bool {
    |c: BeatCollection| c.id != id
}

/// Keep every membership row but the one (collection, beat) pair.
pub open spec fn keep_pair(collection_id: i32, beat_id: i32) -> spec_fn(Membership) -> bool {
    |m: Membership| !(m.collection_id == collection_id && m.beat_id == beat_id)
}

proof fn lemma_filter_push<A>(s: Seq<A>, x: A, p: spec_fn(A) -> bool)
    ensures
        s.push(x).filter(p) == (if p(x) {
            s.filter(p).push(x)
        } else {
            s.filter(p)
        }),
{
    reveal(Seq::filter);
    assert(s.push(x).drop_last() =~= s);
    assert(s.push(x).last() == x);
}

/// Every element a filter keeps was in the source sequence.
proof fn lemma_filter_sub<A>(s: Seq<A>, p: spec_fn(A) -> bool)
    ensures
        forall|i: int|
            0 <= i < s.filter(p).len() ==> s.contains(#[trigger] s.filter(p)[i]),
    decreases s.len(),
{
    reveal(Seq::filter);
    if s.len() > 0 {
        let sub = s.drop_last();
        lemma_filter_sub(sub, p);
        assert forall|i: int|
            0 <= i < s.filter(p).len() implies s.contains(#[trigger] s.filter(p)[i]) by {
            if i < sub.filter(p).len() {
                assert(s.filter(p)[i] == sub.filter(p)[i]);
                let k = choose|k: int| 0 <= k < sub.len() && sub[k] == sub.filter(p)[i];
                assert(s[k] == s.filter(p)[i]);
            } else {
                assert(s.filter(p)[i] == s.last());
            }
        }
    }
}

/// Filtering a beat relation with pairwise distinct ids keeps the ids
/// pairwise distinct.
proof fn lemma_filter_beats_unique(s: Seq<Beat>, p: spec_fn(Beat) -> bool)
    requires
        forall|i: int, j: int| 0 <= i < j < s.len() ==> s[i].id != s[j].id,
    ensures
        forall|i: int, j: int|
            0 <= i < j < s.filter(p).len() ==> s.filter(p)[i].id != s.filter(p)[j].id,
    decreases s.len(),
{
    reveal(Seq::filter);
    if s.len() > 0 {
        let sub = s.drop_last();
        lemma_filter_beats_unique(sub, p);
        lemma_filter_sub(sub, p);
        assert forall|i: int, j: int|
            0 <= i < j < s.filter(p).len() implies s.filter(p)[i].id != s.filter(p)[j].id by {
            if j < sub.filter(p).len() {
                assert(s.filter(p)[i] == sub.filter(p)[i]);
                assert(s.filter(p)[j] == sub.filter(p)[j]);
            } else {
                assert(s.filter(p)[j] == s.last());
                assert(s.filter(p)[i] == sub.filter(p)[i]);
                let k = choose|k: int| 0 <= k < sub.len() && sub[k] == sub.filter(p)[i];
                assert(s[k] == sub.filter(p)[i]);
            }
        }
    }
}

/// Filtering a membership relation with pairwise distinct pairs keeps
/// the pairs pairwise distinct.
proof fn lemma_filter_pairs_unique(s: Seq<Membership>, p: spec_fn(Membership) -> bool)
    requires
        forall|i: int, j: int|
            0 <= i < j < s.len() ==> !(s[i].collection_id == s[j].collection_id && s[i].beat_id
                == s[j].beat_id),
    ensures
        forall|i: int, j: int|
            0 <= i < j < s.filter(p).len() ==> !(s.filter(p)[i].collection_id
                == s.filter(p)[j].collection_id && s.filter(p)[i].beat_id
                == s.filter(p)[j].beat_id),
    decreases s.len(),
{
    reveal(Seq::filter);
    if s.len() > 0 {
        let sub = s.drop_last();
        lemma_filter_pairs_unique(sub, p);
        lemma_filter_sub(sub, p);
        assert forall|i: int, j: int|
            0 <= i < j < s.filter(p).len() implies !(s.filter(p)[i].collection_id
            == s.filter(p)[j].collection_id && s.filter(p)[i].beat_id
            == s.filter(p)[j].beat_id) by {
            if j < sub.filter(p).len() {
                assert(s.filter(p)[i] == sub.filter(p)[i]);
                assert(s.filter(p)[j] == sub.filter(p)[j]);
            } else {
                assert(s.filter(p)[j] == s.last());
                assert(s.filter(p)[i] == sub.filter(p)[i]);
                let k = choose|k: int| 0 <= k < sub.len() && sub[k] == sub.filter(p)[i];
                assert(s[k] == sub.filter(p)[i]);
            }
        }
    }
}

fn retain_beats(beats: &mut Vec<Beat>, id: i32)
    ensures
        final(beats)@ == old(beats)@.filter(keep_beat(id)),
{
    let mut out: Vec<Beat> = Vec::new();
    let mut i: usize = 0;
    while i < beats.len()
        invariant
            i <= beats@.len(),
            out@ == beats@.take(i as int).filter(keep_beat(id)),
        decreases beats@.len() - i,
    {
        proof {
            assert(beats@.take(i + 1) =~= beats@.take(i as int).push(beats@[i as int]));
            lemma_filter_push(beats@.take(i as int), beats@[i as int], keep_beat(id));
        }
        if beats[i].id != id {
            out.push(beats[i].clone());
        }
        i = i + 1;
    }
    proof {
        assert(beats@.take(beats@.len() as int) =~= beats@);
    }
    *beats = out;
}

fn retain_memberships_without_beat(memberships: &mut Vec<Membership>, id: i32)
    ensures
        final(memberships)@ == old(memberships)@.filter(keep_membership_of_beat(id)),
{
    let mut out: Vec<Membership> = Vec::new();
    let mut i: usize = 0;
    while i < memberships.len()
        invariant
            i <= memberships@.len(),
            out@ == memberships@.take(i as int).filter(keep_membership_of_beat(id)),
        decreases memberships@.len() - i,
    {
        let m = memberships[i];
        proof {
            assert(memberships@.take(i + 1) =~= memberships@.take(i as int).push(m));
            lemma_filter_push(memberships@.take(i as int), m, keep_membership_of_beat(id));
        }
        if m.beat_id != id {
            out.push(m);
        }
        i = i + 1;
    }
    proof {
        assert(memberships@.take(memberships@.len() as int) =~= memberships@);
    }
    *memberships = out;
}

fn retain_memberships_without_collection(memberships: &mut Vec<Membership>, id: i32)
    ensures
        final(memberships)@ == old(memberships)@.filter(keep_membership_of_collection(id)),
{
    let mut out: Vec<Membership> = Vec::new();
    let mut i: usize = 0;
    while i < memberships.len()
        invariant
            i <= memberships@.len(),
            out@ == memberships@.take(i as int).filter(keep_membership_of_collection(id)),
        decreases memberships@.len() - i,
    {
        let m = memberships[i];
        proof {
            assert(memberships@.take(i + 1) =~= memberships@.take(i as int).push(m));
            lemma_filter_push(memberships@.take(i as int), m, keep_membership_of_collection(id));
        }
        if m.collection_id != id {
            out.push(m);
        }
        i = i + 1;
    }
    proof {
        assert(memberships@.take(memberships@.len() as int) =~= memberships@);
    }
    *memberships = out;
}

fn retain_memberships_without_pair(memberships: &mut Vec<Membership>, collection_id: i32, beat_id: i32)
    ensures
        final(memberships)@ == old(memberships)@.filter(keep_pair(collection_id, beat_id)),
{
    let mut out: Vec<Membership> = Vec::new();
    let mut i: usize = 0;
    while i < memberships.len()
        invariant
            i <= memberships@.len(),
            out@ == memberships@.take(i as int).filter(keep_pair(collection_id, beat_id)),
        decreases memberships@.len() - i,
    {
        let m = memberships[i];
        proof {
            assert(memberships@.take(i + 1) =~= memberships@.take(i as int).push(m));
            lemma_filter_push(memberships@.take(i as int), m, keep_pair(collection_id, beat_id));
        }
        if !(m.collection_id == collection_id && m.beat_id == beat_id) {
            out.push(m);
        }
        i = i + 1;
    }
    proof {
        assert(memberships@.take(memberships@.len() as int) =~= memberships@);
    }
    *memberships = out;
}

/// The position of the beat carrying `id`, when one exists.
pub open spec fn beat_index(beats: Seq<Beat>, id: i32) -> int {
    choose|i: int| 0 <= i < beats.len() && beats[i].id == id
}

/// The join of the first `n` membership rows against the beat relation,
/// restricted to one collection: for each membership of that collection,
/// in relation order, the full beat record it references.
pub open spec fn spec_collection_join(
    beats: Seq<Beat>,
    memberships: Seq<Membership>,
    collection_id: i32,
    n: int,
) -> Seq<Beat>
    decreases n,
{
    if n <= 0 {
        Seq::empty()
    } else {
        let rest = spec_collection_join(beats, memberships, collection_id, n - 1);
        if memberships[n - 1].collection_id == collection_id {
            rest.push(beats[beat_index(beats, memberships[n - 1].beat_id)])
        } else {
            rest
        }
    }
}

/// The beats a collection holds: the full join over the membership
/// relation.
pub open spec fn spec_beats_in_collection(cat: Catalog, collection_id: i32) -> Seq<Beat> {
    spec_collection_join(cat.beats@, cat.memberships@, collection_id, cat.memberships@.len() as int)
}

/// Every beat the join yields is named by a membership row of that
/// collection among the first `n`.
proof fn lemma_collection_join_ids(
    beats: Seq<Beat>,
    memberships: Seq<Membership>,
    collection_id: i32,
    n: int,
)
    requires
        0 <= n <= memberships.len(),
        forall|i: int|
            0 <= i < memberships.len() ==> has_beat_id(beats, (#[trigger] memberships[i]).beat_id),
    ensures
        forall|j: int|
            0 <= j < spec_collection_join(beats, memberships, collection_id, n).len()
                ==> exists|i: int|
                0 <= i < n && (#[trigger] spec_collection_join(
                    beats,
                    memberships,
                    collection_id,
                    n,
                )[j]).id == memberships[i].beat_id && memberships[i].collection_id == collection_id,
    decreases n,
{
    if n > 0 {
        lemma_collection_join_ids(beats, memberships, collection_id, n - 1);
        let rest = spec_collection_join(beats, memberships, collection_id, n - 1);
        let cur = spec_collection_join(beats, memberships, collection_id, n);
        assert forall|j: int| 0 <= j < cur.len() implies exists|i: int|
            0 <= i < n && (#[trigger] cur[j]).id == memberships[i].beat_id
                && memberships[i].collection_id == collection_id by {
            if j < rest.len() {
                let i = choose|i: int|
                    0 <= i < n - 1 && rest[j].id == memberships[i].beat_id
                        && memberships[i].collection_id == collection_id;
                assert(cur[j] == rest[j]);
                assert(0 <= i < n && cur[j].id == memberships[i].beat_id
                    && memberships[i].collection_id == collection_id);
            } else {
                let w = beat_index(beats, memberships[n - 1].beat_id);
                assert(has_beat_id(beats, memberships[n - 1].beat_id));
                assert(0 <= w < beats.len() && beats[w].id == memberships[n - 1].beat_id);
                assert(cur[j].id == memberships[n - 1].beat_id
                    && memberships[n - 1].collection_id == collection_id);
            }
        }
    }
}

/// Remove a beat and, as one logical operation, every membership row
/// that references it. Removing an id that is not in the catalog is a
/// success that changes nothing (the uniform policy of this store's
/// delete operations).
///
/// The last clause is the cascade made visible at the query: after the
/// delete, no collection's contents include the deleted beat.
pub fn delete_beat(cat: &mut Catalog, id: i32) -> (r: Result<(), CatalogError>)
    requires
        old(cat).wf(),
    ensures
        final(cat).wf(),
        r is Ok,
        final(cat).beats@ == old(cat).beats@.filter(keep_beat(id)),
        final(cat).memberships@ == old(cat).memberships@.filter(keep_membership_of_beat(id)),
        final(cat).collections@ == old(cat).collections@,
        final(cat).next_beat_id == old(cat).next_beat_id,
        final(cat).next_collection_id == old(cat).next_collection_id,
        !has_beat_id(final(cat).beats@, id),
        forall|collection_id: i32, j: int|
            0 <= j < spec_beats_in_collection(*final(cat), collection_id).len()
                ==> (#[trigger] spec_beats_in_collection(*final(cat), collection_id)[j]).id != id,
{
    retain_beats(&mut cat.beats, id);
    retain_memberships_without_beat(&mut cat.memberships, id);
    proof {
        let pre = *old(cat);
        let post = *cat;
        broadcast use vstd::seq_lib::group_filter_ensures;

        lemma_filter_sub(pre.beats@, keep_beat(id));
        lemma_filter_beats_unique(pre.beats@, keep_beat(id));
        lemma_filter_sub(pre.memberships@, keep_membership_of_beat(id));
        lemma_filter_pairs_unique(pre.memberships@, keep_membership_of_beat(id));
        assert forall|i: int|
            0 <= i < post.beats@.len() implies 1 <= (#[trigger] post.beats@[i].id)
            < post.next_beat_id by {
            let k = choose|k: int| 0 <= k < pre.beats@.len() && pre.beats@[k] == post.beats@[i];
            assert(1 <= pre.beats@[k].id < pre.next_beat_id);
        }
        assert forall|i: int|
            0 <= i < post.memberships@.len() implies has_beat_id(
            post.beats@,
            (#[trigger] post.memberships@[i]).beat_id,
        ) && has_collection_id(post.collections@, post.memberships@[i].collection_id) by {
            let m = post.memberships@[i];
            let k = choose|k: int|
                0 <= k < pre.memberships@.len() && pre.memberships@[k] == m;
            assert(has_beat_id(pre.beats@, m.beat_id));
            let w = choose|w: int| 0 <= w < pre.beats@.len() && pre.beats@[w].id == m.beat_id;
            assert(keep_membership_of_beat(id)(m));
            assert(keep_beat(id)(pre.beats@[w]));
            assert(post.beats@.contains(pre.beats@[w]));
        }
        assert(post.wf());
        if has_beat_id(post.beats@, id) {
            let i = choose|i: int| 0 <= i < post.beats@.len() && post.beats@[i].id == id;
            assert(keep_beat(id)(post.beats@[i]));
        }
        assert forall|collection_id: i32, j: int|
            0 <= j < spec_beats_in_collection(post, collection_id).len() implies (
        #[trigger] spec_beats_in_collection(post, collection_id)[j]).id != id by {
            lemma_collection_join_ids(
                post.beats@,
                post.memberships@,
                collection_id,
                post.memberships@.len() as int,
            );
            let i = choose|i: int|
                0 <= i < post.memberships@.len() && spec_beats_in_collection(
                    post,
                    collection_id,
                )[j].id == post.memberships@[i].beat_id && post.memberships@[i].collection_id
                    == collection_id;
            assert(keep_membership_of_beat(id)(post.memberships@[i]));
        }
    }
    Ok(())
}

/// Remove a collection and, as one logical operation, every membership
/// row that belongs to it. Removing an absent id is a success that
/// changes nothing.
pub fn delete_beat_collection(cat: &mut Catalog, id: i32) -> (r: Result<(), CatalogError>)
    requires
        old(cat).wf(),
    ensures
        final(cat).wf(),
        r is Ok,
        final(cat).collections@ == old(cat).collections@.filter(keep_collection(id)),
        final(cat).memberships@ == old(cat).memberships@.filter(
            keep_membership_of_collection(id),
        ),
        final(cat).beats@ == old(cat).beats@,
        final(cat).next_beat_id == old(cat).next_beat_id,
        final(cat).next_collection_id == old(cat).next_collection_id,
        !has_collection_id(final(cat).collections@, id),
        spec_beats_in_collection(*final(cat), id).len() == 0,
{
    retain_collections(&mut cat.collections, id);
    retain_memberships_without_collection(&mut cat.memberships, id);
    proof {
        let pre = *old(cat);
        let post = *cat;
        broadcast use vstd::seq_lib::group_filter_ensures;

        lemma_filter_sub(pre.collections@, keep_collection(id));
        lemma_filter_collections_unique(pre.collections@, keep_collection(id));
        lemma_filter_sub(pre.memberships@, keep_membership_of_collection(id));
        lemma_filter_pairs_unique(pre.memberships@, keep_membership_of_collection(id));
        assert forall|i: int|
            0 <= i < post.collections@.len() implies 1 <= (#[trigger] post.collections@[i].id)
            < post.next_collection_id by {
            let k = choose|k: int|
                0 <= k < pre.collections@.len() && pre.collections@[k] == post.collections@[i];
            assert(1 <= pre.collections@[k].id < pre.next_collection_id);
        }
        assert forall|i: int|
            0 <= i < post.memberships@.len() implies has_beat_id(
            post.beats@,
            (#[trigger] post.memberships@[i]).beat_id,
        ) && has_collection_id(post.collections@, post.memberships@[i].collection_id) by {
            let m = post.memberships@[i];
            let k = choose|k: int|
                0 <= k < pre.memberships@.len() && pre.memberships@[k] == m;
            assert(has_collection_id(pre.collections@, m.collection_id));
            let w = choose|w: int|
                0 <= w < pre.collections@.len() && pre.collections@[w].id == m.collection_id;
            assert(keep_membership_of_collection(id)(m));
            assert(keep_collection(id)(pre.collections@[w]));
            assert(post.collections@.contains(pre.collections@[w]));
        }
        assert(post.wf());
        if has_collection_id(post.collections@, id) {
            let i = choose|i: int|
                0 <= i < post.collections@.len() && post.collections@[i].id == id;
            assert(keep_collection(id)(post.collections@[i]));
        }
        lemma_join_empty_without_collection(
            post.beats@,
            post.memberships@,
            id,
            post.memberships@.len() as int,
        );
    }
    Ok(())
}

/// A join over membership rows none of which belong to the collection
/// yields nothing.
proof fn lemma_join_empty_without_collection(
    beats: Seq<Beat>,
    memberships: Seq<Membership>,
    collection_id: i32,
    n: int,
)
    requires
        0 <= n <= memberships.len(),
        forall|i: int|
            0 <= i < memberships.len() ==> (#[trigger] memberships[i]).collection_id
                != collection_id,
    ensures
        spec_collection_join(beats, memberships, collection_id, n).len() == 0,
    decreases n,
{
    if n > 0 {
        lemma_join_empty_without_collection(beats, memberships, collection_id, n - 1);
    }
}

/// Filtering a collection relation with pairwise distinct ids keeps the
/// ids pairwise distinct.
proof fn lemma_filter_collections_unique(s: Seq<BeatCollection>, p: spec_fn(BeatCollection) -> bool)
    requires
        forall|i: int, j: int| 0 <= i < j < s.len() ==> s[i].id != s[j].id,
    ensures
        forall|i: int, j: int|
            0 <= i < j < s.filter(p).len() ==> s.filter(p)[i].id != s.filter(p)[j].id,
    decreases s.len(),
{
    reveal(Seq::filter);
    if s.len() > 0 {
        let sub = s.drop_last();
        lemma_filter_collections_unique(sub, p);
        lemma_filter_sub(sub, p);
        assert forall|i: int, j: int|
            0 <= i < j < s.filter(p).len() implies s.filter(p)[i].id != s.filter(p)[j].id by {
            if j < sub.filter(p).len() {
                assert(s.filter(p)[i] == sub.filter(p)[i]);
                assert(s.filter(p)[j] == sub.filter(p)[j]);
            } else {
                assert(s.filter(p)[j] == s.last());
                assert(s.filter(p)[i] == sub.filter(p)[i]);
                let k = choose|k: int| 0 <= k < sub.len() && sub[k] == sub.filter(p)[i];
                assert(s[k] == sub.filter(p)[i]);
            }
        }
    }
}

fn retain_collections(collections: &mut Vec<BeatCollection>, id: i32)
    ensures
        final(collections)@ == old(collections)@.filter(keep_collection(id)),
{
    let mut out: Vec<BeatCollection> = Vec::new();
    let mut i: usize = 0;
    while i < collections.len()
        invariant
            i <= collections@.len(),
            out@ == collections@.take(i as int).filter(keep_collection(id)),
        decreases collections@.len() - i,
    {
        proof {
            assert(collections@.take(i + 1) =~= collections@.take(i as int).push(
                collections@[i as int],
            ));
            lemma_filter_push(collections@.take(i as int), collections@[i as int], keep_collection(id));
        }
        if collections[i].id != id {
            out.push(collections[i].clone());
        }
        i = i + 1;
    }
    proof {
        assert(collections@.take(collections@.len() as int) =~= collections@);
    }
    *collections = out;
}

/// The beat relation with the row carrying `id` (if any) replaced by
/// `f` of itself, every other row kept.
pub open spec fn spec_update_beat_row(beats: Seq<Beat>, id: i32, f: spec_fn(Beat) -> Beat) -> Seq<
    Beat,
> {
    Seq::new(
        beats.len(),
        |i: int|
            if beats[i].id == id {
                f(beats[i])
            } else {
                beats[i]
            },
    )
}

/// A changeset applied to a stored row: each carried field replaces the
/// stored one, each absent field leaves it untouched; the id, the
/// required fields, the derived fields and the row order never change.
pub open spec fn spec_apply_changeset(b: Beat, beat: BeatChangeset) -> Beat {
    Beat {
        artist: (if beat.artist is Some {
            beat.artist
        } else {
            b.artist
        }),
        album: (if beat.album is Some {
            beat.album
        } else {
            b.album
        }),
        genre: (if beat.genre is Some {
            beat.genre
        } else {
            b.genre
        }),
        year: (if beat.year is Some {
            beat.year
        } else {
            b.year
        }),
        track_number: (if beat.track_number is Some {
            beat.track_number
        } else {
            b.track_number
        }),
        composer: (if beat.composer is Some {
            beat.composer
        } else {
            b.composer
        }),
        lyricist: (if beat.lyricist is Some {
            beat.lyricist
        } else {
            b.lyricist
        }),
        cover_art: (if beat.cover_art is Some {
            beat.cover_art
        } else {
            b.cover_art
        }),
        comments: (if beat.comments is Some {
            beat.comments
        } else {
            b.comments
        }),
        ..b
    }
}

/// Apply a narrow changeset to the beat it names: only the carried
/// fields change. Fails with `NotFound`, and changes nothing, when no
/// beat has the changeset's id.
pub fn update_beat(cat: &mut Catalog, beat: BeatChangeset) -> (r: Result<(), CatalogError>)
    requires
        old(cat).wf(),
    ensures
        final(cat).wf(),
        (r is Ok <==> has_beat_id(old(cat).beats@, beat.id)),
        (r is Err ==> r == Err::<(), CatalogError>(CatalogError::NotFound) && *final(cat) == *old(cat)),
        (r is Ok ==> final(cat).beats@ == spec_update_beat_row(
            old(cat).beats@,
            beat.id,
            (|b: Beat| spec_apply_changeset(b, beat)),
        ) && final(cat).collections@ == old(cat).collections@ && final(cat).memberships@ == old(cat).memberships@ && final(cat).next_beat_id == old(cat).next_beat_id && final(cat).next_collection_id == old(cat).next_collection_id),
{
    let i = match find_beat_index(&cat.beats, beat.id) {
        Some(i) => i,
        None => {
            return Err(CatalogError::NotFound);
        },
    };
    let b = cat.beats.remove(i);
    let nb = Beat {
        id: b.id,
        title: b.title,
        artist: (if beat.artist.is_some() {
            beat.artist
        } else {
            b.artist
        }),
        album: (if beat.album.is_some() {
            beat.album
        } else {
            b.album
        }),
        genre: (if beat.genre.is_some() {
            beat.genre
        } else {
            b.genre
        }),
        year: (if beat.year.is_some() {
            beat.year
        } else {
            b.year
        }),
        track_number: (if beat.track_number.is_some() {
            beat.track_number
        } else {
            b.track_number
        }),
        duration: b.duration,
        composer: (if beat.composer.is_some() {
            beat.composer
        } else {
            b.composer
        }),
        lyricist: (if beat.lyricist.is_some() {
            beat.lyricist
        } else {
            b.lyricist
        }),
        cover_art: (if beat.cover_art.is_some() {
            beat.cover_art
        } else {
            b.cover_art
        }),
        comments: (if beat.comments.is_some() {
            beat.comments
        } else {
            b.comments
        }),
        file_path: b.file_path,
        bpm: b.bpm,
        musical_key: b.musical_key,
        date_created: b.date_created,
        row_order: b.row_order,
    };
    cat.beats.insert(i, nb);
    proof {
        let pre = old(cat).beats@;
        assert_seqs_equal!(
            cat.beats@ == spec_update_beat_row(pre, beat.id, (|b: Beat| spec_apply_changeset(b, beat))),
            j => {
                if j < i {
                    assert(cat.beats@[j] == pre[j]);
                    assert(pre[j].id != beat.id);
                } else if j == i {
                    assert(cat.beats@[j] == nb);
                } else {
                    assert(cat.beats@[j] == pre.remove(i as int)[j - 1]);
                    assert(pre.remove(i as int)[j - 1] == pre[j]);
                    assert(pre[j].id != beat.id);
                }
            }
        );
        assert forall|k: int|
            0 <= k < cat.beats@.len() implies (#[trigger] cat.beats@[k].id) == old(cat).beats@[k].id by {
            assert(cat.beats@[k] == spec_update_beat_row(
                old(cat).beats@,
                beat.id,
                (|b: Beat| spec_apply_changeset(b, beat)),
            )[k]);
        }
        lemma_wf_same_ids(*old(cat), *cat);
    }
    Ok(())
}

/// The full beat relation, in store order.
pub fn fetch_beats(cat: &Catalog) -> (r: Vec<Beat>)
    ensures
        r@ == cat.beats@,
{
    let r = cat.beats.clone();
    proof {
        assert(r@ =~= cat.beats@);
    }
    r
}

/// The full collection relation, in store order.
pub fn fetch_collections(cat: &Catalog) -> (r: Vec<BeatCollection>)
    ensures
        r@ == cat.collections@,
{
    let r = cat.collections.clone();
    proof {
        assert(r@ =~= cat.collections@);
    }
    r
}

/// The join of one collection's membership rows against the beat
/// relation: the full record of every beat in the collection, in
/// membership order. A collection id with no rows (including an id that
/// is not in the catalog) yields the empty sequence.
pub fn get_beats_in_collection(cat: &Catalog, collection_id: i32) -> (r: Result<
    Vec<Beat>,
    CatalogError,
>)
    requires
        cat.wf(),
    ensures
        r is Ok,
        r->Ok_0@ == spec_beats_in_collection(*cat, collection_id),
{
    let mut out: Vec<Beat> = Vec::new();
    let mut i: usize = 0;
    while i < cat.memberships.len()
        invariant
            cat.wf(),
            i <= cat.memberships@.len(),
            out@ == spec_collection_join(cat.beats@, cat.memberships@, collection_id, i as int),
        decreases cat.memberships@.len() - i,
    {
        let m = cat.memberships[i];
        if m.collection_id == collection_id {
            match find_beat_index(&cat.beats, m.beat_id) {
                Some(k) => {
                    out.push(cat.beats[k].clone());
                    proof {
                        let w = beat_index(cat.beats@, m.beat_id);
                        assert(0 <= w < cat.beats@.len() && cat.beats@[w].id == m.beat_id);
                        if w != k {
                            assert(cat.beats@[w].id != cat.beats@[k as int].id);
                        }
                    }
                },
                None => {
                    proof {
                        assert(has_beat_id(cat.beats@, cat.memberships@[i as int].beat_id));
                    }
                    // A membership row always references an existing beat.
                    vstd::pervasive::unreached()
                },
            }
        }
        i = i + 1;
    }
    Ok(out)
}

/// Linear scan for the position of the collection with the given id.
pub(crate) fn find_collection_index(collections: &Vec<BeatCollection>, id: i32) -> (r: Option<
    usize,
>)
    ensures
        (match r {
            Some(i) => i < collections@.len() && collections@[i as int].id == id,
            None => !has_collection_id(collections@, id),
        }),
{
    let mut i: usize = 0;
    while i < collections.len()
        invariant
            i <= collections@.len(),
            forall|j: int| 0 <= j < i ==> collections@[j].id != id,
        decreases collections@.len() - i,
    {
        if collections[i].id == id {
            return Some(i);
        }
        i = i + 1;
    }
    None
}

/// Fetch one collection record by id; `NotFound` when it is absent.
pub fn get_beat_collection(cat: &Catalog, id: i32) -> (r: Result<BeatCollection, CatalogError>)
    requires
        cat.wf(),
    ensures
        (r is Ok <==> has_collection_id(cat.collections@, id)),
        (r is Err ==> r == Err::<BeatCollection, CatalogError>(CatalogError::NotFound)),
        (r is Ok ==> cat.collections@.contains(r->Ok_0) && r->Ok_0.id == id),
{
    match find_collection_index(&cat.collections, id) {
        Some(i) => {
            let c = cat.collections[i].clone();
            proof {
                assert(cat.collections@[i as int] == c);
            }
            Ok(c)
        },
        None => Err(CatalogError::NotFound),
    }
}

/// The collection row that inserting `nc` under the id `id` creates.
pub open spec fn spec_collection_of(nc: NewBeatCollection, id: i32) -> BeatCollection {
    BeatCollection {
        id,
        set_name: nc.set_name,
        venue: nc.venue,
        city: nc.city,
        state_name: nc.state_name,
        date_played: nc.date_played,
        date_created: nc.date_created,
    }
}

/// Insert `nc` as a new collection row. The store assigns the next id.
/// The set name is required: an empty one is a constraint violation and
/// nothing is written.
pub fn insert_collection(cat: &mut Catalog, nc: NewBeatCollection) -> (r: Result<
    BeatCollection,
    CatalogError,
>)
    requires
        old(cat).wf(),
        old(cat).next_collection_id < i32::MAX,
    ensures
        final(cat).wf(),
        (r is Ok <==> nc.set_name@.len() > 0),
        (r is Err ==> r == Err::<BeatCollection, CatalogError>(CatalogError::ConstraintViolation)
            && *final(cat) == *old(cat)),
        (r is Ok ==> ({
            let c = r->Ok_0;
            &&& c == spec_collection_of(nc, old(cat).next_collection_id)
            &&& final(cat).collections@ == old(cat).collections@.push(c)
            &&& final(cat).beats@ == old(cat).beats@
            &&& final(cat).memberships@ == old(cat).memberships@
            &&& final(cat).next_collection_id == old(cat).next_collection_id + 1
            &&& final(cat).next_beat_id == old(cat).next_beat_id
            &&& (forall|i: int|
                0 <= i < old(cat).collections@.len() ==> (#[trigger] old(cat).collections@[i].id) != c.id)
        })),
{
    if nc.set_name.as_str().is_empty() {
        return Err(CatalogError::ConstraintViolation);
    }
    let id = cat.next_collection_id;
    let c = BeatCollection {
        id,
        set_name: nc.set_name,
        venue: nc.venue,
        city: nc.city,
        state_name: nc.state_name,
        date_played: nc.date_played,
        date_created: nc.date_created,
    };
    cat.collections.push(c.clone());
    cat.next_collection_id = cat.next_collection_id + 1;
    proof {
        let pre = *old(cat);
        let post = *cat;
        assert forall|i: int|
            0 <= i < post.memberships@.len() implies has_beat_id(
            post.beats@,
            (#[trigger] post.memberships@[i]).beat_id,
        ) && has_collection_id(post.collections@, post.memberships@[i].collection_id) by {
            let cid = pre.memberships@[i].collection_id;
            let w = choose|k: int|
                0 <= k < pre.collections@.len() && pre.collections@[k].id == cid;
            assert(post.collections@[w].id == cid);
        }
    }
    Ok(c)
}

fn opt_str_to_owned(o: Option<&str>) -> (r: Option<String>)
    ensures
        (match (o, r) {
            (Some(a), Some(b)) => b@ == a@,
            (None, None) => true,
            _ => false,
        }),
{
    match o {
        Some(s) => Some(s.to_owned()),
        None => None,
    }
}

/// What both collection-creation entry points guarantee: success exactly
/// on a non-empty set name, no change on failure, and on success a
/// fresh-id row holding exactly the given values. The row's timestamp is
/// not pinned here; `new_beat_collection_dated` additionally fixes it.
pub open spec fn spec_added_collection(
    pre: Catalog,
    post: Catalog,
    r: Result<BeatCollection, CatalogError>,
    set_name: Seq<char>,
    venue: Option<&str>,
    city: Option<&str>,
    state_name: Option<&str>,
    date_played: Option<&str>,
) -> bool {
    &&& post.wf()
    &&& (r is Ok <==> set_name.len() > 0)
    &&& (r is Err ==> r == Err::<BeatCollection, CatalogError>(CatalogError::ConstraintViolation)
        && post == pre)
    &&& (r is Ok ==> ({
        let c = r->Ok_0;
        &&& c.id == pre.next_collection_id
        &&& c.set_name@ == set_name
        &&& opt_views_match(c.venue, venue)
        &&& opt_views_match(c.city, city)
        &&& opt_views_match(c.state_name, state_name)
        &&& opt_views_match(c.date_played, date_played)
        &&& post.collections@ == pre.collections@.push(c)
        &&& post.beats@ == pre.beats@
        &&& post.memberships@ == pre.memberships@
        &&& post.next_collection_id == pre.next_collection_id + 1
        &&& post.next_beat_id == pre.next_beat_id
        &&& (forall|i: int|
            0 <= i < pre.collections@.len() ==> (#[trigger] pre.collections@[i].id) != c.id)
    }))
}

/// Whether a stored optional string and an optional borrowed one carry
/// the same text.
pub open spec fn opt_views_match(stored: Option<String>, given: Option<&str>) -> bool {
    match (stored, given) {
        (Some(a), Some(b)) => a@ == b@,
        (None, None) => true,
        _ => false,
    }
}

/// Create a collection with an explicit creation timestamp.
pub fn new_beat_collection_dated(
    cat: &mut Catalog,
    set_name: &str,
    venue: Option<&str>,
    city: Option<&str>,
    state_name: Option<&str>,
    date_played: Option<&str>,
    date_created: i64,
) -> (r: Result<BeatCollection, CatalogError>)
    requires
        old(cat).wf(),
        old(cat).next_collection_id < i32::MAX,
    ensures
        spec_added_collection(
            *old(cat),
            *final(cat),
            r,
            set_name@,
            venue,
            city,
            state_name,
            date_played,
        ),
        (r is Ok ==> r->Ok_0.date_created == date_created),
{
    let nc = NewBeatCollection {
        set_name: set_name.to_owned(),
        venue: opt_str_to_owned(venue),
        city: opt_str_to_owned(city),
        state_name: opt_str_to_owned(state_name),
        date_played: opt_str_to_owned(date_played),
        date_created,
    };
    insert_collection(cat, nc)
}

/// Create a collection, stamping it with the current wall-clock time.
/// Exactly `new_beat_collection_dated` otherwise; the timestamp is
/// whatever the clock gave.
pub fn new_beat_collection(
    cat: &mut Catalog,
    set_name: &str,
    venue: Option<&str>,
    city: Option<&str>,
    state_name: Option<&str>,
    date_played: Option<&str>,
) -> (r: Result<BeatCollection, CatalogError>)
    requires
        old(cat).wf(),
        old(cat).next_collection_id < i32::MAX,
    ensures
        spec_added_collection(
            *old(cat),
            *final(cat),
            r,
            set_name@,
            venue,
            city,
            state_name,
            date_played,
        ),
{
    let now = current_timestamp();
    new_beat_collection_dated(cat, set_name, venue, city, state_name, date_played, now)
}

fn has_pair_exec(memberships: &Vec<Membership>, collection_id: i32, beat_id: i32) -> (r: bool)
    ensures
        r == has_pair(memberships@, collection_id, beat_id),
{
    let mut i: usize = 0;
    while i < memberships.len()
        invariant
            i <= memberships@.len(),
            forall|j: int|
                0 <= j < i ==> !((#[trigger] memberships@[j]).collection_id == collection_id
                    && memberships@[j].beat_id == beat_id),
        decreases memberships@.len() - i,
    {
        if memberships[i].collection_id == collection_id && memberships[i].beat_id == beat_id {
            return true;
        }
        i = i + 1;
    }
    false
}

/// Link a beat into a collection. The pair must not exist yet and both
/// ids must reference existing rows; a duplicate pair or a dangling
/// foreign key is a constraint violation and nothing is written. The
/// operation is deliberately not idempotent: adding the same pair twice
/// fails the second time.
pub fn add_beat_to_collection(cat: &mut Catalog, collection_id: i32, beat_id: i32) -> (r: Result<
    (),
    CatalogError,
>)
    requires
        old(cat).wf(),
    ensures
        final(cat).wf(),
        (r is Ok <==> (has_collection_id(old(cat).collections@, collection_id) && has_beat_id(
            old(cat).beats@,
            beat_id,
        ) && !has_pair(old(cat).memberships@, collection_id, beat_id))),
        (r is Err ==> r == Err::<(), CatalogError>(CatalogError::ConstraintViolation) && *final(cat) == *old(cat)),
        (r is Ok ==> final(cat).memberships@ == old(cat).memberships@.push(
            Membership { collection_id, beat_id },
        ) && final(cat).beats@ == old(cat).beats@ && final(cat).collections@ == old(cat).collections@ && final(cat).next_beat_id == old(cat).next_beat_id && final(cat).next_collection_id == old(cat).next_collection_id),
{
    let collection_exists = find_collection_index(&cat.collections, collection_id).is_some();
    let beat_exists = find_beat_index(&cat.beats, beat_id).is_some();
    if !collection_exists || !beat_exists {
        return Err(CatalogError::ConstraintViolation);
    }
    if has_pair_exec(&cat.memberships, collection_id, beat_id) {
        return Err(CatalogError::ConstraintViolation);
    }
    cat.memberships.push(Membership { collection_id, beat_id });
    proof {
        let pre = *old(cat);
        let post = *cat;
        assert forall|i: int|
            0 <= i < post.memberships@.len() implies has_beat_id(
            post.beats@,
            (#[trigger] post.memberships@[i]).beat_id,
        ) && has_collection_id(post.collections@, post.memberships@[i].collection_id) by {
            if i < pre.memberships@.len() {
                assert(pre.memberships@[i] == post.memberships@[i]);
            } else {
                assert(post.memberships@[i] == Membership { collection_id, beat_id });
            }
        }
    }
    Ok(())
}

/// The collection relation with the row carrying `id` (if any) replaced
/// by `f` of itself, every other row kept.
pub open spec fn spec_update_collection_row(
    collections: Seq<BeatCollection>,
    id: i32,
    f: spec_fn(BeatCollection) -> BeatCollection,
) -> Seq<BeatCollection> {
    Seq::new(
        collections.len(),
        |i: int|
            if collections[i].id == id {
                f(collections[i])
            } else {
                collections[i]
            },
    )
}

/// A changeset applied to a stored collection row: each carried field
/// replaces the stored one, each absent field leaves it untouched; the
/// id, the set name and the creation timestamp never change.
pub open spec fn spec_apply_collection_changeset(
    c: BeatCollection,
    changes: BeatCollectionChangeset,
) -> BeatCollection {
    BeatCollection {
        venue: (if changes.venue is Some {
            changes.venue
        } else {
            c.venue
        }),
        city: (if changes.city is Some {
            changes.city
        } else {
            c.city
        }),
        state_name: (if changes.state_name is Some {
            changes.state_name
        } else {
            c.state_name
        }),
        date_played: (if changes.date_played is Some {
            changes.date_played
        } else {
            c.date_played
        }),
        ..c
    }
}

/// A catalog whose collection relation kept its shape (same length,
/// same id at each position), with everything else untouched, is still
/// well formed.
proof fn lemma_wf_same_collection_ids(pre: Catalog, post: Catalog)
    requires
        pre.wf(),
        post.collections@.len() == pre.collections@.len(),
        forall|i: int|
            0 <= i < post.collections@.len() ==> (#[trigger] post.collections@[i]).id
                == pre.collections@[i].id,
        post.beats@ == pre.beats@,
        post.memberships@ == pre.memberships@,
        post.next_beat_id == pre.next_beat_id,
        post.next_collection_id == pre.next_collection_id,
    ensures
        post.wf(),
{
    assert forall|i: int|
        0 <= i < post.memberships@.len() implies has_beat_id(
        post.beats@,
        (#[trigger] post.memberships@[i]).beat_id,
    ) && has_collection_id(post.collections@, post.memberships@[i].collection_id) by {
        let cid = post.memberships@[i].collection_id;
        let w = choose|k: int| 0 <= k < pre.collections@.len() && pre.collections@[k].id == cid;
        assert(post.collections@[w].id == cid);
    }
}

/// Apply a narrow changeset to the collection it names: only the
/// carried fields change. Fails with `NotFound`, and changes nothing,
/// when no collection has the changeset's id.
pub fn update_beat_collection(cat: &mut Catalog, changes: BeatCollectionChangeset) -> (r: Result<
    (),
    CatalogError,
>)
    requires
        old(cat).wf(),
    ensures
        final(cat).wf(),
        (r is Ok <==> has_collection_id(old(cat).collections@, changes.id)),
        (r is Err ==> r == Err::<(), CatalogError>(CatalogError::NotFound) && *final(cat) == *old(cat)),
        (r is Ok ==> final(cat).collections@ == spec_update_collection_row(
            old(cat).collections@,
            changes.id,
            (|c: BeatCollection| spec_apply_collection_changeset(c, changes)),
        ) && final(cat).beats@ == old(cat).beats@ && final(cat).memberships@ == old(cat).memberships@
            && final(cat).next_beat_id == old(cat).next_beat_id && final(cat).next_collection_id
            == old(cat).next_collection_id),
{
    let i = match find_collection_index(&cat.collections, changes.id) {
        Some(i) => i,
        None => {
            return Err(CatalogError::NotFound);
        },
    };
    let c = cat.collections.remove(i);
    let nc = BeatCollection {
        id: c.id,
        set_name: c.set_name,
        venue: (if changes.venue.is_some() {
            changes.venue
        } else {
            c.venue
        }),
        city: (if changes.city.is_some() {
            changes.city
        } else {
            c.city
        }),
        state_name: (if changes.state_name.is_some() {
            changes.state_name
        } else {
            c.state_name
        }),
        date_played: (if changes.date_played.is_some() {
            changes.date_played
        } else {
            c.date_played
        }),
        date_created: c.date_created,
    };
    cat.collections.insert(i, nc);
    proof {
        let pre = old(cat).collections@;
        assert_seqs_equal!(
            cat.collections@ == spec_update_collection_row(
                pre,
                changes.id,
                (|c: BeatCollection| spec_apply_collection_changeset(c, changes)),
            ),
            j => {
                if j < i {
                    assert(cat.collections@[j] == pre[j]);
                    assert(pre[j].id != changes.id);
                } else if j == i {
                    assert(cat.collections@[j] == nc);
                } else {
                    assert(cat.collections@[j] == pre.remove(i as int)[j - 1]);
                    assert(pre.remove(i as int)[j - 1] == pre[j]);
                    assert(pre[j].id != changes.id);
                }
            }
        );
        assert forall|k: int|
            0 <= k < cat.collections@.len() implies (#[trigger] cat.collections@[k]).id == old(cat).collections@[k].id by {
            assert(cat.collections@[k] == spec_update_collection_row(
                old(cat).collections@,
                changes.id,
                (|c: BeatCollection| spec_apply_collection_changeset(c, changes)),
            )[k]);
        }
        lemma_wf_same_collection_ids(*old(cat), *cat);
    }
    Ok(())
}

/// Membership insertion is not idempotent: as soon as a pair has been
/// pushed onto the relation, it is present, so by the success condition
/// of `add_beat_to_collection` a second add of the same pair must fail
/// with a constraint violation.
pub proof fn lemma_added_pair_present(
    pre: Catalog,
    post: Catalog,
    collection_id: i32,
    beat_id: i32,
)
    requires
        post.memberships@ == pre.memberships@.push(Membership { collection_id, beat_id }),
    ensures
        has_pair(post.memberships@, collection_id, beat_id),
{
    assert(post.memberships@[pre.memberships@.len() as int] == Membership {
        collection_id,
        beat_id,
    });
}

/// Unlink a beat from a collection. Removing a pair that is not there is
/// a success that changes nothing (the uniform delete policy).
pub fn remove_beat_from_collection(cat: &mut Catalog, collection_id: i32, beat_id: i32) -> (r:
    Result<(), CatalogError>)
    requires
        old(cat).wf(),
    ensures
        final(cat).wf(),
        r is Ok,
        final(cat).memberships@ == old(cat).memberships@.filter(keep_pair(collection_id, beat_id)),
        final(cat).beats@ == old(cat).beats@,
        final(cat).collections@ == old(cat).collections@,
        final(cat).next_beat_id == old(cat).next_beat_id,
        final(cat).next_collection_id == old(cat).next_collection_id,
        !has_pair(final(cat).memberships@, collection_id, beat_id),
{
    retain_memberships_without_pair(&mut cat.memberships, collection_id, beat_id);
    proof {
        let pre = *old(cat);
        let post = *cat;
        lemma_filter_sub(pre.memberships@, keep_pair(collection_id, beat_id));
        lemma_filter_pairs_unique(pre.memberships@, keep_pair(collection_id, beat_id));
        assert forall|i: int|
            0 <= i < post.memberships@.len() implies has_beat_id(
            post.beats@,
            (#[trigger] post.memberships@[i]).beat_id,
        ) && has_collection_id(post.collections@, post.memberships@[i].collection_id) by {
            let m = post.memberships@[i];
            let k = choose|k: int|
                0 <= k < pre.memberships@.len() && pre.memberships@[k] == m;
            assert(has_beat_id(pre.beats@, m.beat_id));
            assert(has_collection_id(pre.collections@, m.collection_id));
        }
        broadcast use vstd::seq_lib::group_filter_ensures;

        if has_pair(post.memberships@, collection_id, beat_id) {
            let i = choose|i: int|
                0 <= i < post.memberships@.len() && post.memberships@[i].collection_id
                    == collection_id && post.memberships@[i].beat_id == beat_id;
            assert(keep_pair(collection_id, beat_id)(post.memberships@[i]));
        }
    }
    Ok(())
}

} // verus!
