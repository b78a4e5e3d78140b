//! Reads the coordinates of a route out of the events of its track
//! document.
use vstd::prelude::*;
use crate::event::{
    attr_or_empty, attribute_or_empty, attrs_view, Element, LoadError, XmlEvent, LATITUDE_ATTRIBUTE,
    LONGITUDE_ATTRIBUTE, TRACK_POINT,
};
use crate::text::{float_text, is_float_text, same_text};
use crate::value::{coordinates_view, CoordinatesView};

verus! {

pub open spec fn is_track_point(ev: XmlEvent) -> bool {
    ev matches XmlEvent::Start(e) && e.name@ == TRACK_POINT@
}

/// The (longitude, latitude) literals of a track point element.
pub open spec fn point_of(e: Element) -> (Seq<char>, Seq<char>) {
    (
        attr_or_empty(attrs_view(e.attributes@), LONGITUDE_ATTRIBUTE@),
        attr_or_empty(attrs_view(e.attributes@), LATITUDE_ATTRIBUTE@),
    )
}

pub open spec fn point_of_event(ev: XmlEvent) -> (Seq<char>, Seq<char>) {
    match ev {
        XmlEvent::Start(e) => point_of(e),
        _ => (Seq::empty(), Seq::empty()),
    }
}

/// The points of a track document's events: one per track point element,
/// in document order.
pub open spec fn track_points(evs: Seq<XmlEvent>) -> CoordinatesView
    decreases evs.len(),
{
    if evs.len() == 0 {
        Seq::empty()
    } else if is_track_point(evs.last()) {
        track_points(evs.drop_last()).push(point_of_event(evs.last()))
    } else {
        track_points(evs.drop_last())
    }
}

pub open spec fn numeric_points(c: CoordinatesView) -> bool {
    forall|i: int| 0 <= i < c.len() ==> float_text(#[trigger] c[i].0) && float_text(c[i].1)
}

/// Gathers the points of a track document as its events go by.
pub struct TrackReader {
    points: Vec<(String, String)>,
}

impl TrackReader {
    pub closed spec fn points_view(&self) -> CoordinatesView {
        coordinates_view(self.points@)
    }

    pub fn new() -> (r: TrackReader)
        ensures
            r.points_view() == Seq::<(Seq<char>, Seq<char>)>::empty(),
    {
        let r = TrackReader { points: Vec::new() };
        assert(coordinates_view(r.points@) =~= Seq::empty());
        r
    }

    /// Takes one event of the track document. Fails, keeping the points
    /// gathered so far, on a track point whose longitude or latitude is not
    /// a number.
    pub fn feed(&mut self, ev: &XmlEvent) -> (r: Result<(), LoadError>)
        ensures
            is_track_point(*ev) && !numeric_points(seq![point_of_event(*ev)]) ==> r == Err::<(), LoadError>(
                LoadError::BadCoordinate,
            ) && final(self).points_view() == old(self).points_view(),
            is_track_point(*ev) && numeric_points(seq![point_of_event(*ev)]) ==> r is Ok
                && final(self).points_view() == old(self).points_view().push(point_of_event(*ev)),
            !is_track_point(*ev) ==> r is Ok && final(self).points_view() == old(self).points_view(),
    {
        if let XmlEvent::Start(e) = ev {
            if same_text(e.name.as_str(), TRACK_POINT) {
                let lon = attribute_or_empty(e, LONGITUDE_ATTRIBUTE);
                let lat = attribute_or_empty(e, LATITUDE_ATTRIBUTE);
                let ghost p = point_of_event(*ev);
                if !is_float_text(lon.as_str()) || !is_float_text(lat.as_str()) {
                    assert(!(float_text(seq![p][0].0) && float_text(seq![p][0].1)));
                    return Err(LoadError::BadCoordinate);
                }
                let ghost before = self.points@;
                self.points.push((lon, lat));
                proof {
                    assert(coordinates_view(self.points@) =~= coordinates_view(before).push(p));
                    assert forall|i: int| 0 <= i < 1 implies float_text(#[trigger] seq![p][i].0) && float_text(seq![p][i].1) by {
                        assert(seq![p][i] == p);
                    }
                }
            }
        }
        Ok(())
    }

    /// The points gathered, in document order.
    pub fn finish(self) -> (r: Vec<(String, String)>)
        ensures
            coordinates_view(r@) == self.points_view(),
    {
        self.points
    }
}

/// The points of a whole track document. Fails where a track point's
/// longitude or latitude is not a number.
pub fn track_coordinates(events: &Vec<XmlEvent>) -> (r: Result<Vec<(String, String)>, LoadError>)
    ensures
        numeric_points(track_points(events@)) ==> (r matches Ok(c) && coordinates_view(c@) == track_points(events@)),
        !numeric_points(track_points(events@)) ==> r == Err::<Vec<(String, String)>, LoadError>(LoadError::BadCoordinate),
{
    let mut t = TrackReader::new();
    let n = events.len();
    let mut i: usize = 0;
    assert(events@.take(0) =~= Seq::<XmlEvent>::empty());
    while i < n
        invariant
            n == events@.len(),
            i <= n,
            t.points_view() == track_points(events@.take(i as int)),
            numeric_points(t.points_view()),
        decreases n - i,
    {
        let ghost pre = events@.take(i as int);
        assert(events@.take(i + 1).drop_last() =~= pre);
        assert(events@.take(i + 1).last() == events@[i as int]);
        let ghost before_pts = t.points_view();
        match t.feed(&events[i]) {
            Ok(()) => {},
            Err(e) => {
                proof {
                    lemma_points_extend(events@, i as int + 1);
                    let p = point_of_event(events@[i as int]);
                    assert(track_points(events@.take(i + 1)) == track_points(pre).push(p));
                    let all = track_points(events@);
                    let k = track_points(pre).len() as int;
                    assert(all[k] == p);
                    assert(!(float_text(p.0) && float_text(p.1))) by {
                        if float_text(p.0) && float_text(p.1) {
                            assert forall|j: int| 0 <= j < 1 implies float_text(#[trigger] seq![p][j].0) && float_text(seq![p][j].1) by {
                                assert(seq![p][j] == p);
                            }
                        }
                    }
                }
                return Err(e);
            },
        }
        proof {
            let p = point_of_event(events@[i as int]);
            if is_track_point(events@[i as int]) {
                assert(numeric_points(seq![p]));
                assert(seq![p][0] == p);
                assert forall|j: int| 0 <= j < t.points_view().len() implies float_text(#[trigger] t.points_view()[j].0) && float_text(t.points_view()[j].1) by {
                    if j == t.points_view().len() - 1 {
                        assert(t.points_view()[j] == p);
                    } else {
                        assert(t.points_view()[j] == before_pts[j]);
                    }
                }
            }
        }
        i = i + 1;
    }
    assert(events@.take(n as int) =~= events@);
    Ok(t.finish())
}

/// The points of a prefix of a document are a prefix of the points of
/// the whole.
pub proof fn lemma_points_extend(evs: Seq<XmlEvent>, k: int)
    requires
        0 <= k <= evs.len(),
    ensures
        track_points(evs.take(k)).len() <= track_points(evs).len(),
        forall|j: int| 0 <= j < track_points(evs.take(k)).len() ==> #[trigger] track_points(evs)[j] == track_points(evs.take(k))[j],
    decreases evs.len() - k,
{
    if k < evs.len() {
        assert(evs.take(k + 1).drop_last() =~= evs.take(k));
        lemma_points_extend(evs, k + 1);
    } else {
        assert(evs.take(k) =~= evs);
    }
}

/// A route's coordinates are exactly its track document's track point
/// elements, one pair each, in document order.
pub proof fn lemma_one_point_per_track_point(evs: Seq<XmlEvent>)
    ensures
        track_points(evs) == evs.filter(|ev: XmlEvent| is_track_point(ev)).map_values(
            |ev: XmlEvent| point_of_event(ev),
        ),
        track_points(evs).len() == evs.filter(|ev: XmlEvent| is_track_point(ev)).len(),
    decreases evs.len(),
{
    reveal(Seq::filter);
    let f = |ev: XmlEvent| is_track_point(ev);
    let g = |ev: XmlEvent| point_of_event(ev);
    if evs.len() > 0 {
        lemma_one_point_per_track_point(evs.drop_last());
        let sub = evs.drop_last().filter(f);
        if is_track_point(evs.last()) {
            assert(sub.push(evs.last()).map_values(g) =~= sub.map_values(g).push(g(evs.last())));
        }
    } else {
        assert(evs.filter(f).map_values(g) =~= Seq::empty());
    }
}

} // verus!
