//! The order in which rows are listed.
use vstd::prelude::*;
use vstd::relations::*;

use crate::double::Double;
use crate::model::{
    ClockSegment, ClockSegmentView, EvidenceRow, EvidenceRowView, LagRow, LagRowView,
    ObservationRow, ObservationRowView, Station, StationView,
};
use crate::order::{is_sorted_form, keys, mapping_keeps_multisets, Sortable};
use crate::store::{EventRow, EventRowView};
use crate::text::{precedes, same, text_lt, text_order_is_total, text_order_is_transitive};

verus! {

/// What rows are listed by: a text, a number and two more texts, as far as the
/// kind of row needs them.
pub type RowKey = (Seq<char>, int, Seq<char>, Seq<char>);

/// The order of the keys, part by part.
pub open spec fn row_lt(a: RowKey, b: RowKey) -> bool {
    if a.0 != b.0 {
        text_lt(a.0, b.0)
    } else if a.1 != b.1 {
        a.1 < b.1
    } else if a.2 != b.2 {
        text_lt(a.2, b.2)
    } else {
        text_lt(a.3, b.3)
    }
}

pub open spec fn row_le(a: RowKey, b: RowKey) -> bool {
    a == b || row_lt(a, b)
}

/// Of two keys one comes first, or they are the same.
pub proof fn row_order_is_total(a: RowKey, b: RowKey)
    ensures
        row_lt(a, b) || row_lt(b, a) || a == b,
        !(row_lt(a, b) && row_lt(b, a)),
        row_lt(a, b) ==> a != b,
{
    text_order_is_total(a.0, b.0);
    text_order_is_total(a.2, b.2);
    text_order_is_total(a.3, b.3);
}

/// What comes before a key comes before everything after that key.
pub proof fn row_order_is_transitive(a: RowKey, b: RowKey, c: RowKey)
    requires
        row_lt(a, b),
        row_lt(b, c),
    ensures
        row_lt(a, c),
{
    text_order_is_total(a.0, b.0);
    text_order_is_total(b.0, c.0);
    text_order_is_total(a.2, b.2);
    text_order_is_total(b.2, c.2);
    if a.0 != b.0 && b.0 != c.0 {
        text_order_is_transitive(a.0, b.0, c.0);
        text_order_is_total(a.0, c.0);
    } else if a.0 == b.0 && b.0 == c.0 && a.1 == b.1 && b.1 == c.1 {
        if a.2 != b.2 && b.2 != c.2 {
            text_order_is_transitive(a.2, b.2, c.2);
            text_order_is_total(a.2, c.2);
        } else if a.2 == b.2 && b.2 == c.2 {
            text_order_is_transitive(a.3, b.3, c.3);
        }
    }
}

pub proof fn row_order_is_a_total_ordering()
    ensures
        total_ordering(|a: RowKey, b: RowKey| row_le(a, b)),
{
    let le = |a: RowKey, b: RowKey| row_le(a, b);
    assert forall|a: RowKey, b: RowKey| #[trigger] le(a, b)
        && #[trigger] le(b, a) implies a == b by {
        row_order_is_total(a, b);
    }
    assert forall|a: RowKey, b: RowKey, c: RowKey| #[trigger] le(a, b)
        && #[trigger] le(b, c) implies le(
        a,
        c,
    ) by {
        if a != b && b != c {
            row_order_is_transitive(a, b, c);
        }
    }
    assert forall|a: RowKey, b: RowKey| #[trigger] le(a, b) || #[trigger] le(b, a) by {
        row_order_is_total(a, b);
    }
}

/// `r` lists the rows of `s` in the order of their keys, no key twice.
pub open spec fn is_listing<V>(s: Seq<V>, r: Seq<V>, key: spec_fn(V) -> RowKey) -> bool {
    &&& r.to_multiset() == s.to_multiset()
    &&& forall|i: int, j: int| 0 <= i < j < r.len() ==>
        row_lt(key(#[trigger] r[i]), key(#[trigger] r[j]))
}

/// Rows can be listed in one way only.
pub proof fn listing_of_rows_is_unique<V>(
    s: Seq<V>,
    a: Seq<V>,
    b: Seq<V>,
    key: spec_fn(V) -> RowKey,
)
    requires
        is_listing(s, a, key),
        is_listing(s, b, key),
    ensures
        a == b,
{
    broadcast use vstd::seq_lib::group_to_multiset_ensures;

    let le = |x: RowKey, y: RowKey| row_le(x, y);
    row_order_is_a_total_ordering();
    mapping_keeps_multisets(a, b, key);
    let ka = a.map_values(key);
    let kb = b.map_values(key);
    assert(sorted_by(ka, le)) by {
        assert forall|i: int, j: int| 0 <= i < j < ka.len() implies #[trigger] le(ka[i], ka[j]) by {
            assert(row_lt(key(a[i]), key(a[j])));
        }
    }
    assert(sorted_by(kb, le)) by {
        assert forall|i: int, j: int| 0 <= i < j < kb.len() implies #[trigger] le(kb[i], kb[j]) by {
            assert(row_lt(key(b[i]), key(b[j])));
        }
    }
    vstd::seq_lib::lemma_sorted_unique(ka, kb, le);
    assert forall|i: int| 0 <= i < a.len() implies a[i] == b[i] by {
        assert(ka[i] == kb[i]);
        assert(b.contains(b[i]));
        assert(a.to_multiset().count(b[i]) > 0);
        assert(a.contains(b[i]));
        let j = choose|j: int| 0 <= j < a.len() && a[j] == b[i];
        row_order_is_total(key(a[i]), key(a[j]));
        if i < j {
            assert(row_lt(key(a[i]), key(a[j])));
        } else if j < i {
            assert(row_lt(key(a[j]), key(a[i])));
        }
    }
    assert(a =~= b);
}

/// A sorted list of rows with different keys is their listing.
pub proof fn sorted_rows_are_listed<T: Sortable<Key = RowKey>, V>(
    kept: Seq<T>,
    sorted: Seq<T>,
    said: spec_fn(T) -> V,
    key: spec_fn(V) -> RowKey,
)
    requires
        is_sorted_form(kept, sorted),
        forall|a: RowKey, b: RowKey| #[trigger] T::in_order(a, b) == row_le(a, b),
        forall|x: T| #[trigger] x.key() == key(said(x)),
        forall|i: int, j: int|
            0 <= i < j < kept.len() ==> (#[trigger] kept[i]).key() != (#[trigger] kept[j]).key(),
    ensures
        is_listing(kept.map_values(said), sorted.map_values(said), key),
{
    mapping_keeps_multisets(sorted, kept, said);
    let ks = keys(sorted);
    let kk = keys(kept);
    assert(kk.no_duplicates()) by {
        assert forall|i: int, j: int| 0 <= i < kk.len() && 0 <= j < kk.len() && i != j implies kk[i]
            != kk[j] by {
            if i < j {
                assert(kept[i].key() != kept[j].key());
            } else {
                assert(kept[j].key() != kept[i].key());
            }
        }
    }
    kk.lemma_multiset_has_no_duplicates();
    ks.lemma_multiset_has_no_duplicates_conv();
    let r = sorted.map_values(said);
    assert forall|i: int, j: int| 0 <= i < j < r.len() implies row_lt(
        key(#[trigger] r[i]),
        key(#[trigger] r[j]),
    ) by {
        assert(ks[i] == sorted[i].key() && ks[j] == sorted[j].key());
        assert(ks[i] != ks[j]);
        let leq = |a: RowKey, b: RowKey| T::in_order(a, b);
        assert(leq(ks[i], ks[j]));
        assert(T::in_order(ks[i], ks[j]));
    }
}

/// Whether a row comes after another, by the parts of their keys; the numbers
/// are compared beforehand.
fn comes_after(
    a: (&str, &str, &str),
    b: (&str, &str, &str),
    lower: bool,
    higher: bool,
    m: Ghost<int>,
    n: Ghost<int>,
) -> (r: bool)
    requires
        lower == (m@ < n@),
        higher == (m@ > n@),
    ensures
        r == !row_le((a.0@, m@, a.1@, a.2@), (b.0@, n@, b.1@, b.2@)),
{
    proof {
        row_order_is_total((a.0@, m@, a.1@, a.2@), (b.0@, n@, b.1@, b.2@));
    }
    if !same(a.0, b.0) {
        precedes(b.0, a.0)
    } else if lower || higher {
        higher
    } else if !same(a.1, b.1) {
        precedes(b.1, a.1)
    } else {
        precedes(b.2, a.2)
    }
}

impl Sortable for Station {
    type Key = RowKey;

    open spec fn key(&self) -> RowKey {
        (self.station_id@, 0, ""@, ""@)
    }

    open spec fn in_order(a: RowKey, b: RowKey) -> bool {
        row_le(a, b)
    }

    proof fn order_is_total() {
        row_order_is_a_total_ordering();
        assert((|a: RowKey, b: RowKey| row_le(a, b)) =~= (|a: RowKey, b: RowKey|
            Self::in_order(a, b)));
    }

    fn goes_after(&self, other: &Self) -> (r: bool) {
        comes_after(
            (self.station_id.as_str(), "", ""),
            (other.station_id.as_str(), "", ""),
            false,
            false,
            Ghost(0),
            Ghost(0),
        )
    }
}

impl Sortable for EventRow {
    type Key = RowKey;

    open spec fn key(&self) -> RowKey {
        (self.event_id@, 0, ""@, ""@)
    }

    open spec fn in_order(a: RowKey, b: RowKey) -> bool {
        row_le(a, b)
    }

    proof fn order_is_total() {
        row_order_is_a_total_ordering();
        assert((|a: RowKey, b: RowKey| row_le(a, b)) =~= (|a: RowKey, b: RowKey|
            Self::in_order(a, b)));
    }

    fn goes_after(&self, other: &Self) -> (r: bool) {
        comes_after(
            (self.event_id.as_str(), "", ""),
            (other.event_id.as_str(), "", ""),
            false,
            false,
            Ghost(0),
            Ghost(0),
        )
    }
}

impl Sortable for (ClockSegment, i64) {
    type Key = RowKey;

    open spec fn key(&self) -> RowKey {
        (self.0.station_id@, self.0.t_start.rank(), ""@, ""@)
    }

    open spec fn in_order(a: RowKey, b: RowKey) -> bool {
        row_le(a, b)
    }

    proof fn order_is_total() {
        row_order_is_a_total_ordering();
        assert((|a: RowKey, b: RowKey| row_le(a, b)) =~= (|a: RowKey, b: RowKey|
            Self::in_order(a, b)));
    }

    fn goes_after(&self, other: &Self) -> (r: bool) {
        let lower = self.0.t_start.ranks_below(other.0.t_start);
        let higher = other.0.t_start.ranks_below(self.0.t_start);
        comes_after(
            (self.0.station_id.as_str(), "", ""),
            (other.0.station_id.as_str(), "", ""),
            lower,
            higher,
            Ghost(self.0.t_start.rank()),
            Ghost(other.0.t_start.rank()),
        )
    }
}

impl Sortable for ObservationRow {
    type Key = RowKey;

    open spec fn key(&self) -> RowKey {
        (""@, onset_shown(self.corrected_onset_sec, self.local_onset_sec).rank(), self.station_id@,
            self.obs_uid@)
    }

    open spec fn in_order(a: RowKey, b: RowKey) -> bool {
        row_le(a, b)
    }

    proof fn order_is_total() {
        row_order_is_a_total_ordering();
        assert((|a: RowKey, b: RowKey| row_le(a, b)) =~= (|a: RowKey, b: RowKey|
            Self::in_order(a, b)));
    }

    fn goes_after(&self, other: &Self) -> (r: bool) {
        let a = match self.corrected_onset_sec {
            Some(t) => t,
            None => self.local_onset_sec,
        };
        let b = match other.corrected_onset_sec {
            Some(t) => t,
            None => other.local_onset_sec,
        };
        let lower = a.ranks_below(b);
        let higher = b.ranks_below(a);
        comes_after(
            ("", self.station_id.as_str(), self.obs_uid.as_str()),
            ("", other.station_id.as_str(), other.obs_uid.as_str()),
            lower,
            higher,
            Ghost(a.rank()),
            Ghost(b.rank()),
        )
    }
}

/// The onset by which an observation is listed: the corrected one if there is
/// one.
pub open spec fn onset_shown(
    corrected: Option<Double>,
    local: Double,
) -> Double {
    match corrected {
        Some(t) => t,
        None => local,
    }
}

impl Sortable for LagRow {
    type Key = RowKey;

    open spec fn key(&self) -> RowKey {
        (self.station_id@, 0, self.obs_uid@, self.lag_uid@)
    }

    open spec fn in_order(a: RowKey, b: RowKey) -> bool {
        row_le(a, b)
    }

    proof fn order_is_total() {
        row_order_is_a_total_ordering();
        assert((|a: RowKey, b: RowKey| row_le(a, b)) =~= (|a: RowKey, b: RowKey|
            Self::in_order(a, b)));
    }

    fn goes_after(&self, other: &Self) -> (r: bool) {
        comes_after(
            (self.station_id.as_str(), self.obs_uid.as_str(), self.lag_uid.as_str()),
            (other.station_id.as_str(), other.obs_uid.as_str(), other.lag_uid.as_str()),
            false,
            false,
            Ghost(0),
            Ghost(0),
        )
    }
}

impl Sortable for EvidenceRow {
    type Key = RowKey;

    open spec fn key(&self) -> RowKey {
        (self.evidence_id@, 0, ""@, ""@)
    }

    open spec fn in_order(a: RowKey, b: RowKey) -> bool {
        row_le(a, b)
    }

    proof fn order_is_total() {
        row_order_is_a_total_ordering();
        assert((|a: RowKey, b: RowKey| row_le(a, b)) =~= (|a: RowKey, b: RowKey|
            Self::in_order(a, b)));
    }

    fn goes_after(&self, other: &Self) -> (r: bool) {
        comes_after(
            (self.evidence_id.as_str(), "", ""),
            (other.evidence_id.as_str(), "", ""),
            false,
            false,
            Ghost(0),
            Ghost(0),
        )
    }
}

/// Stations listed by their identifiers.
pub open spec fn stations_listed(s: Seq<StationView>, r: Seq<StationView>) -> bool {
    is_listing(s, r, |s: StationView| (s.station_id, 0, ""@, ""@))
}

/// Events listed by their identifiers.
pub open spec fn events_listed(s: Seq<EventRowView>, r: Seq<EventRowView>) -> bool {
    is_listing(s, r, |e: EventRowView| (e.event_id, 0, ""@, ""@))
}

/// Clock segments listed by station and start.
pub open spec fn segments_listed(
    s: Seq<(ClockSegmentView, int)>,
    r: Seq<(ClockSegmentView, int)>,
) -> bool {
    is_listing(s, r, |s: (ClockSegmentView, int)| (s.0.station_id, s.0.t_start.rank(), ""@, ""@))
}

/// Observations listed by onset, station and identifier.
pub open spec fn observations_listed(
    s: Seq<ObservationRowView>,
    r: Seq<ObservationRowView>,
) -> bool {
    is_listing(s, r, |o: ObservationRowView| (
                ""@,
                onset_shown(o.corrected_onset_sec, o.local_onset_sec).rank(),
                o.station_id,
                o.obs_uid,
            ))
}

/// Delays listed by station, observation and identifier.
pub open spec fn lags_listed(s: Seq<LagRowView>, r: Seq<LagRowView>) -> bool {
    is_listing(s, r, |l: LagRowView| (l.station_id, 0, l.obs_uid, l.lag_uid))
}

/// Evidence listed by its identifiers.
pub open spec fn evidence_listed(s: Seq<EvidenceRowView>, r: Seq<EvidenceRowView>) -> bool {
    is_listing(s, r, |e: EvidenceRowView| (e.evidence_id, 0, ""@, ""@))
}

} // verus!
