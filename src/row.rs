//! The row pass: turns each recognised element of the document into a
//! typed row for its table, and asks for route documents as they are
//! referenced.
use vstd::prelude::*;
use crate::event::{
    attribute_or_empty, attrs_view, element_kind, metadata_column_name, metadata_entry_column,
    metadata_entry_value, record_kind, Element, LoadError, XmlEvent, ACTIVITY_SUMMARY, FILE_REFERENCE,
    GEOMETRY_COLUMN, HEALTH_DATA, KEY_ATTRIBUTE, METADATA_ENTRY, PATH_ATTRIBUTE, RECORD,
    ROUTE_ENTRY_PREFIX, VALUE_ATTRIBUTE, WORKOUT, WORKOUT_EVENT, WORKOUT_EVENTS_COLUMN, WORKOUT_ROUTE,
    WORKOUT_STATISTICS, WORKOUT_STATISTICS_COLUMN, attr_or_empty,
};
use crate::text::{float_text, is_float_text, same_text};
use crate::value::{
    coerce, coerce_text, coordinates_view, fields_view, scalar_view, value_view, CoordinatesView,
    FieldsView, Scalar, ScalarView, Structured, StructuredView, Value, ValueView,
};

verus! {

/// One row for one table: column names and values, in order.
pub struct Row {
    pub table: String,
    pub cells: Vec<(String, Value)>,
}

/// What the caller must do after an event of the row pass.
pub enum RowAction {
    Nothing,
    /// Insert this finished row.
    Insert(Row),
    /// Read the track document at this archive entry and attach it.
    ResolveRoute(String),
}

pub type CellsView = Seq<(Seq<char>, ValueView)>;

pub enum ActionView {
    Nothing,
    Insert(Seq<char>, CellsView),
    ResolveRoute(Seq<char>),
}

pub open spec fn cells_view(c: Seq<(String, Value)>) -> CellsView {
    c.map_values(|p: (String, Value)| (p.0@, value_view(p.1)))
}

pub open spec fn action_view(a: RowAction) -> ActionView {
    match a {
        RowAction::Nothing => ActionView::Nothing,
        RowAction::Insert(r) => ActionView::Insert(r.table@, cells_view(r.cells@)),
        RowAction::ResolveRoute(p) => ActionView::ResolveRoute(p@),
    }
}

/// A row's cells from an element's attributes: each value coerced.
pub open spec fn element_cells(a: Seq<(Seq<char>, Seq<char>)>) -> CellsView {
    a.map_values(|p: (Seq<char>, Seq<char>)| (p.0, coerce(p.1)))
}

/// An embedded object's fields from an element's attributes: numbers where
/// the value reads as one, else text.
pub open spec fn element_fields(a: Seq<(Seq<char>, Seq<char>)>) -> FieldsView {
    a.map_values(
        |p: (Seq<char>, Seq<char>)|
            (
                p.0,
                if float_text(p.1) {
                    ScalarView::Number(p.1)
                } else {
                    ScalarView::Text(p.1)
                },
            ),
    )
}

pub open spec fn metadata_cell(e: Element) -> (Seq<char>, ValueView) {
    (metadata_entry_column(e), coerce(metadata_entry_value(e)))
}

pub open spec fn has_key(s: Seq<(Seq<char>, FieldsView)>, k: Seq<char>) -> bool {
    exists|i: int| 0 <= i < s.len() && #[trigger] s[i].0 == k
}

/// `s` with `k` mapped to `f`: replacing what `k` mapped to, or added last.
pub open spec fn with_statistic(s: Seq<(Seq<char>, FieldsView)>, k: Seq<char>, f: FieldsView) -> Seq<(Seq<char>, FieldsView)> {
    if has_key(s, k) {
        s.map_values(
            |p: (Seq<char>, FieldsView)|
                if p.0 == k {
                    (k, f)
                } else {
                    p
                },
        )
    } else {
        s.push((k, f))
    }
}

pub open spec fn unique_keys(s: Seq<(Seq<char>, FieldsView)>) -> bool {
    forall|i: int, j: int| 0 <= i < s.len() && 0 <= j < s.len() && #[trigger] s[i].0 == #[trigger] s[j].0 ==> i == j
}

pub enum RowPhaseView {
    Prolog,
    Body,
    InWorkout,
    InRoute,
    InRecord(Seq<char>),
    Done,
}

pub struct RowState {
    pub phase: RowPhaseView,
    pub cells: CellsView,
    pub events: Seq<FieldsView>,
    pub stats: Seq<(Seq<char>, FieldsView)>,
    pub route: Option<CoordinatesView>,
}

pub open spec fn initial_row_state() -> RowState {
    RowState {
        phase: RowPhaseView::Prolog,
        cells: Seq::empty(),
        events: Seq::empty(),
        stats: Seq::empty(),
        route: None,
    }
}

/// A state with nothing accumulated.
pub open spec fn cleared(p: RowPhaseView) -> RowState {
    RowState { phase: p, cells: Seq::empty(), events: Seq::empty(), stats: Seq::empty(), route: None }
}

pub open spec fn row_in_phase(st: RowState, p: RowPhaseView) -> RowState {
    RowState { phase: p, cells: st.cells, events: st.events, stats: st.stats, route: st.route }
}

/// A workout's cells: its own, then its events, statistics and route.
pub open spec fn workout_cells(st: RowState) -> CellsView {
    st.cells.push((WORKOUT_EVENTS_COLUMN@, ValueView::Structured(StructuredView::Events(st.events)))).push(
        (WORKOUT_STATISTICS_COLUMN@, ValueView::Structured(StructuredView::Statistics(st.stats))),
    ).push((GEOMETRY_COLUMN@, ValueView::Structured(StructuredView::Route(st.route))))
}

pub open spec fn finish_workout(st: RowState, p: RowPhaseView) -> (RowState, ActionView) {
    (cleared(p), ActionView::Insert(WORKOUT@, workout_cells(st)))
}

pub open spec fn route_entry(path: Seq<char>) -> Seq<char> {
    ROUTE_ENTRY_PREFIX@ + path
}

/// The row pass on one event: the next state and what the caller must do.
pub open spec fn row_step(st: RowState, ev: XmlEvent) -> Result<(RowState, ActionView), LoadError> {
    let same = Ok((st, ActionView::Nothing));
    match st.phase {
        RowPhaseView::Done => same,
        RowPhaseView::Prolog => match ev {
            XmlEvent::Start(e) => if e.name@ == HEALTH_DATA@ {
                Ok((row_in_phase(st, RowPhaseView::Body), ActionView::Nothing))
            } else {
                same
            },
            XmlEvent::Eof => Ok((row_in_phase(st, RowPhaseView::Done), ActionView::Nothing)),
            _ => same,
        },
        RowPhaseView::Body => match ev {
            XmlEvent::Eof => Ok((row_in_phase(st, RowPhaseView::Done), ActionView::Nothing)),
            XmlEvent::Start(e) => if e.name@ == WORKOUT@ {
                Ok(
                    (
                        RowState {
                            phase: RowPhaseView::InWorkout,
                            cells: element_cells(attrs_view(e.attributes@)),
                            events: Seq::empty(),
                            stats: Seq::empty(),
                            route: None,
                        },
                        ActionView::Nothing,
                    ),
                )
            } else if e.name@ == RECORD@ {
                match element_kind(e) {
                    Some(k) => Ok(
                        (
                            RowState {
                                phase: RowPhaseView::InRecord(k),
                                cells: element_cells(attrs_view(e.attributes@)),
                                events: Seq::empty(),
                                stats: Seq::empty(),
                                route: None,
                            },
                            ActionView::Nothing,
                        ),
                    ),
                    None => Err(LoadError::MissingKind),
                }
            } else {
                same
            },
            XmlEvent::Empty(e) => if e.name@ == RECORD@ {
                match element_kind(e) {
                    Some(k) => Ok((st, ActionView::Insert(k, element_cells(attrs_view(e.attributes@))))),
                    None => Err(LoadError::MissingKind),
                }
            } else if e.name@ == ACTIVITY_SUMMARY@ {
                Ok((st, ActionView::Insert(ACTIVITY_SUMMARY@, element_cells(attrs_view(e.attributes@)))))
            } else {
                same
            },
            _ => same,
        },
        RowPhaseView::InWorkout => match ev {
            XmlEvent::Eof => Err(LoadError::Truncated),
            XmlEvent::End(n) => if n@ == WORKOUT@ {
                Ok(finish_workout(st, RowPhaseView::Body))
            } else {
                same
            },
            XmlEvent::Empty(e) => if e.name@ == METADATA_ENTRY@ {
                Ok(
                    (
                        RowState {
                            phase: st.phase,
                            cells: st.cells.push(metadata_cell(e)),
                            events: st.events,
                            stats: st.stats,
                            route: st.route,
                        },
                        ActionView::Nothing,
                    ),
                )
            } else if e.name@ == WORKOUT_EVENT@ {
                Ok(
                    (
                        RowState {
                            phase: st.phase,
                            cells: st.cells,
                            events: st.events.push(element_fields(attrs_view(e.attributes@))),
                            stats: st.stats,
                            route: st.route,
                        },
                        ActionView::Nothing,
                    ),
                )
            } else if e.name@ == WORKOUT_STATISTICS@ {
                match element_kind(e) {
                    Some(k) => Ok(
                        (
                            RowState {
                                phase: st.phase,
                                cells: st.cells,
                                events: st.events,
                                stats: with_statistic(st.stats, k, element_fields(attrs_view(e.attributes@))),
                                route: st.route,
                            },
                            ActionView::Nothing,
                        ),
                    ),
                    None => Err(LoadError::MissingKind),
                }
            } else {
                same
            },
            XmlEvent::Start(e) => if e.name@ == WORKOUT_ROUTE@ {
                Ok((row_in_phase(st, RowPhaseView::InRoute), ActionView::Nothing))
            } else {
                same
            },
            XmlEvent::Other => same,
        },
        RowPhaseView::InRoute => match ev {
            XmlEvent::Eof => Err(LoadError::Truncated),
            XmlEvent::End(n) => if n@ == WORKOUT_ROUTE@ {
                Ok((row_in_phase(st, RowPhaseView::InWorkout), ActionView::Nothing))
            } else {
                same
            },
            XmlEvent::Empty(e) => if e.name@ == FILE_REFERENCE@ {
                Ok((st, ActionView::ResolveRoute(route_entry(attr_or_empty(attrs_view(e.attributes@), PATH_ATTRIBUTE@)))))
            } else {
                same
            },
            _ => same,
        },
        RowPhaseView::InRecord(k) => match ev {
            XmlEvent::Eof => Err(LoadError::Truncated),
            XmlEvent::End(n) => if n@ == RECORD@ {
                Ok((cleared(RowPhaseView::Body), ActionView::Insert(k, st.cells)))
            } else {
                same
            },
            XmlEvent::Empty(e) => if e.name@ == METADATA_ENTRY@ {
                Ok(
                    (
                        RowState {
                            phase: st.phase,
                            cells: st.cells.push(metadata_cell(e)),
                            events: st.events,
                            stats: st.stats,
                            route: st.route,
                        },
                        ActionView::Nothing,
                    ),
                )
            } else {
                same
            },
            _ => same,
        },
    }
}

/// A row's cells from the attributes of `e`, each value coerced.
pub fn element_row_cells(e: &Element) -> (r: Vec<(String, Value)>)
    ensures
        cells_view(r@) == element_cells(attrs_view(e.attributes@)),
{
    let ghost a = attrs_view(e.attributes@);
    let n = e.attributes.len();
    let mut r: Vec<(String, Value)> = Vec::new();
    let mut i: usize = 0;
    while i < n
        invariant
            n == e.attributes@.len(),
            a == attrs_view(e.attributes@),
            i <= n,
            cells_view(r@) =~= element_cells(a.take(i as int)),
        decreases n - i,
    {
        let name = e.attributes[i].0.clone();
        let v = coerce_text(e.attributes[i].1.as_str());
        let ghost before = r@;
        r.push((name, v));
        proof {
            assert(a[i as int] == (e.attributes@[i as int].0@, e.attributes@[i as int].1@));
            assert(a.take(i + 1) =~= a.take(i as int).push(a[i as int]));
            assert(r@ =~= before.push((name, v)));
            assert(cells_view(r@) =~= cells_view(before).push((name@, value_view(v))));
            assert(element_cells(a.take(i + 1)) =~= element_cells(a.take(i as int)).push(
                (a[i as int].0, coerce(a[i as int].1)),
            ));
        }
        i = i + 1;
    }
    assert(a.take(n as int) =~= a);
    r
}

/// An embedded object from the attributes of `e`.
pub fn element_object_fields(e: &Element) -> (r: Vec<(String, Scalar)>)
    ensures
        fields_view(r@) == element_fields(attrs_view(e.attributes@)),
{
    let ghost a = attrs_view(e.attributes@);
    let n = e.attributes.len();
    let mut r: Vec<(String, Scalar)> = Vec::new();
    let mut i: usize = 0;
    while i < n
        invariant
            n == e.attributes@.len(),
            a == attrs_view(e.attributes@),
            i <= n,
            fields_view(r@) =~= element_fields(a.take(i as int)),
        decreases n - i,
    {
        let name = e.attributes[i].0.clone();
        let raw = e.attributes[i].1.clone();
        let v = if is_float_text(raw.as_str()) {
            Scalar::Number(raw)
        } else {
            Scalar::Text(raw)
        };
        let ghost before = r@;
        r.push((name, v));
        proof {
            assert(a[i as int] == (e.attributes@[i as int].0@, e.attributes@[i as int].1@));
            assert(a.take(i + 1) =~= a.take(i as int).push(a[i as int]));
            assert(r@ =~= before.push((name, v)));
            assert(fields_view(r@) =~= fields_view(before).push((name@, scalar_view(v))));
            assert(element_fields(a.take(i + 1)) =~= element_fields(a.take(i as int)).push(
                element_fields(a)[i as int],
            ));
        }
        i = i + 1;
    }
    assert(a.take(n as int) =~= a);
    r
}

/// The cell that a metadata entry adds to its element's row.
pub fn metadata_entry_cell(e: &Element) -> (r: (String, Value))
    ensures
        (r.0@, value_view(r.1)) == metadata_cell(*e),
{
    let key = attribute_or_empty(e, KEY_ATTRIBUTE);
    let value = attribute_or_empty(e, VALUE_ATTRIBUTE);
    (metadata_column_name(key.as_str()), coerce_text(value.as_str()))
}

/// `new_st` and `r` are what the row pass gives on `ev` from `old_st`; a
/// refused event leaves the state as it was.
pub open spec fn row_feed_ok(old_st: RowState, ev: XmlEvent, new_st: RowState, r: Result<RowAction, LoadError>) -> bool {
    match row_step(old_st, ev) {
        Ok(p) => r matches Ok(a) && action_view(a) == p.1 && new_st == p.0,
        Err(e) => r == Err::<RowAction, LoadError>(e) && new_st == old_st,
    }
}

/// Where the row pass stands in the document.
pub enum RowPhase {
    Prolog,
    Body,
    InWorkout,
    InRoute,
    InRecord(String),
    Done,
}

pub open spec fn row_phase_view(p: RowPhase) -> RowPhaseView {
    match p {
        RowPhase::Prolog => RowPhaseView::Prolog,
        RowPhase::Body => RowPhaseView::Body,
        RowPhase::InWorkout => RowPhaseView::InWorkout,
        RowPhase::InRoute => RowPhaseView::InRoute,
        RowPhase::InRecord(k) => RowPhaseView::InRecord(k@),
        RowPhase::Done => RowPhaseView::Done,
    }
}

pub open spec fn events_view(v: Seq<Vec<(String, Scalar)>>) -> Seq<FieldsView> {
    v.map_values(|f: Vec<(String, Scalar)>| fields_view(f@))
}

pub open spec fn stats_view(v: Seq<(String, Vec<(String, Scalar)>)>) -> Seq<(Seq<char>, FieldsView)> {
    v.map_values(|p: (String, Vec<(String, Scalar)>)| (p.0@, fields_view(p.1@)))
}

pub open spec fn route_view(r: Option<Vec<(String, String)>>) -> Option<CoordinatesView> {
    match r {
        Some(c) => Some(coordinates_view(c@)),
        None => None,
    }
}

/// Builds the rows of the document as its events go by.
pub struct RowBuilder {
    phase: RowPhase,
    cells: Vec<(String, Value)>,
    events: Vec<Vec<(String, Scalar)>>,
    stats: Vec<(String, Vec<(String, Scalar)>)>,
    route: Option<Vec<(String, String)>>,
}

impl RowBuilder {
    pub closed spec fn state(&self) -> RowState {
        RowState {
            phase: row_phase_view(self.phase),
            cells: cells_view(self.cells@),
            events: events_view(self.events@),
            stats: stats_view(self.stats@),
            route: route_view(self.route),
        }
    }

    pub closed spec fn wf(&self) -> bool {
        unique_keys(stats_view(self.stats@))
    }

    pub fn new() -> (r: RowBuilder)
        ensures
            r.wf(),
            r.state() == initial_row_state(),
    {
        let r = RowBuilder {
            phase: RowPhase::Prolog,
            cells: Vec::new(),
            events: Vec::new(),
            stats: Vec::new(),
            route: None,
        };
        assert(cells_view(r.cells@) =~= Seq::empty());
        assert(events_view(r.events@) =~= Seq::empty());
        assert(stats_view(r.stats@) =~= Seq::empty());
        r
    }

    fn clear(&mut self, p: RowPhase)
        ensures
            final(self).wf(),
            final(self).state() == cleared(row_phase_view(p)),
    {
        self.phase = p;
        self.cells = Vec::new();
        self.events = Vec::new();
        self.stats = Vec::new();
        self.route = None;
        assert(cells_view(self.cells@) =~= Seq::empty());
        assert(events_view(self.events@) =~= Seq::empty());
        assert(stats_view(self.stats@) =~= Seq::empty());
    }

    /// Hands out the finished workout row and clears what was gathered.
    fn take_workout_row(&mut self, p: RowPhase) -> (r: Row)
        ensures
            final(self).wf(),
            (final(self).state(), action_view(RowAction::Insert(r))) == finish_workout(old(self).state(), row_phase_view(p)),
    {
        let ghost st = self.state();
        let mut cells: Vec<(String, Value)> = Vec::new();
        let mut events: Vec<Vec<(String, Scalar)>> = Vec::new();
        let mut stats: Vec<(String, Vec<(String, Scalar)>)> = Vec::new();
        let mut route: Option<Vec<(String, String)>> = None;
        std::mem::swap(&mut cells, &mut self.cells);
        std::mem::swap(&mut events, &mut self.events);
        std::mem::swap(&mut stats, &mut self.stats);
        std::mem::swap(&mut route, &mut self.route);
        let ghost c0 = cells@;
        let e_name = String::from_str(WORKOUT_EVENTS_COLUMN);
        let s_name = String::from_str(WORKOUT_STATISTICS_COLUMN);
        let g_name = String::from_str(GEOMETRY_COLUMN);
        let e_value = Value::Structured(Structured::Events(events));
        let s_value = Value::Structured(Structured::Statistics(stats));
        let g_value = Value::Structured(Structured::Route(route));
        cells.push((e_name, e_value));
        cells.push((s_name, s_value));
        cells.push((g_name, g_value));
        self.clear(p);
        proof {
            assert(cells@ =~= c0.push((e_name, e_value)).push((s_name, s_value)).push((g_name, g_value)));
            assert(cells_view(cells@) =~= workout_cells(st));
        }
        Row { table: String::from_str(WORKOUT), cells }
    }

    fn add_statistic(&mut self, k: String, f: Vec<(String, Scalar)>)
        requires
            old(self).wf(),
        ensures
            final(self).wf(),
            final(self).state() == (RowState {
                stats: with_statistic(old(self).state().stats, k@, fields_view(f@)),
                ..old(self).state()
            }),
    {
        let ghost v = stats_view(self.stats@);
        let ghost old_stats = self.stats@;
        let n = self.stats.len();
        let mut i: usize = 0;
        let mut found = false;
        while !found && i < n
            invariant
                n == self.stats@.len(),
                self.stats@ == old_stats,
                v == stats_view(old_stats),
                i <= n,
                found ==> i < n && old_stats[i as int].0@ == k@,
                forall|j: int| 0 <= j < i ==> old_stats[j].0@ != k@,
            decreases n - i + (if found { 0int } else { 1int }),
        {
            if same_text(self.stats[i].0.as_str(), k.as_str()) {
                found = true;
            } else {
                i = i + 1;
            }
        }
        if found {
            let ghost entry = (k, f);
            self.stats.remove(i);
            self.stats.insert(i, (k, f));
            proof {
                assert(self.stats@ =~= old_stats.update(i as int, entry));
                assert(v[i as int].0 == k@);
                let w = stats_view(self.stats@);
                let target = v.map_values(
                    |p: (Seq<char>, FieldsView)|
                        if p.0 == k@ {
                            (k@, fields_view(f@))
                        } else {
                            p
                        },
                );
                assert forall|j: int| 0 <= j < w.len() implies w[j] == target[j] by {
                    if j != i {
                        assert(v[j].0 != v[i as int].0);
                    }
                }
                assert(w =~= target);
                assert(has_key(v, k@));
            }
        } else {
            proof {
                assert forall|j: int| 0 <= j < n implies old_stats[j].0@ != k@ by {
                    if j >= i {
                        assert(i == n);
                    }
                }
            }
            self.stats.push((k, f));
            proof {
                let w = stats_view(self.stats@);
                assert(w =~= v.push((k@, fields_view(f@))));
                if has_key(v, k@) {
                    let j = choose|j: int| 0 <= j < v.len() && #[trigger] v[j].0 == k@;
                    assert(old_stats[j].0@ == k@);
                }
                assert forall|a: int, b: int| 0 <= a < w.len() && 0 <= b < w.len() && #[trigger] w[a].0 == #[trigger] w[b].0 implies a == b by {
                    if a < v.len() && b == v.len() {
                        assert(old_stats[a].0@ == k@);
                    }
                    if b < v.len() && a == v.len() {
                        assert(old_stats[b].0@ == k@);
                    }
                }
            }
        }
    }

    fn start_element(&mut self, e: &Element, p: RowPhase)
        ensures
            final(self).wf(),
            final(self).state() == (RowState {
                phase: row_phase_view(p),
                cells: element_cells(attrs_view(e.attributes@)),
                events: Seq::empty(),
                stats: Seq::empty(),
                route: None,
            }),
    {
        self.clear(p);
        self.cells = element_row_cells(e);
    }

    fn feed_body(&mut self, ev: &XmlEvent) -> (r: Result<RowAction, LoadError>)
        requires
            old(self).wf(),
            old(self).phase is Body,
        ensures
            final(self).wf(),
            row_feed_ok(old(self).state(), *ev, final(self).state(), r),
    {
        match ev {
            XmlEvent::Eof => {
                self.phase = RowPhase::Done;
            },
            XmlEvent::Start(e) => {
                if same_text(e.name.as_str(), WORKOUT) {
                    self.start_element(e, RowPhase::InWorkout);
                } else if same_text(e.name.as_str(), RECORD) {
                    match record_kind(e) {
                        Some(k) => {
                            self.start_element(e, RowPhase::InRecord(k));
                        },
                        None => {
                            return Err(LoadError::MissingKind);
                        },
                    }
                }
            },
            XmlEvent::Empty(e) => {
                if same_text(e.name.as_str(), RECORD) {
                    match record_kind(e) {
                        Some(k) => {
                            return Ok(RowAction::Insert(Row { table: k, cells: element_row_cells(e) }));
                        },
                        None => {
                            return Err(LoadError::MissingKind);
                        },
                    }
                } else if same_text(e.name.as_str(), ACTIVITY_SUMMARY) {
                    return Ok(
                        RowAction::Insert(
                            Row { table: String::from_str(ACTIVITY_SUMMARY), cells: element_row_cells(e) },
                        ),
                    );
                }
            },
            _ => {},
        }
        Ok(RowAction::Nothing)
    }

    fn feed_workout(&mut self, ev: &XmlEvent) -> (r: Result<RowAction, LoadError>)
        requires
            old(self).wf(),
            old(self).phase is InWorkout,
        ensures
            final(self).wf(),
            row_feed_ok(old(self).state(), *ev, final(self).state(), r),
    {
        match ev {
            XmlEvent::Eof => {
                return Err(LoadError::Truncated);
            },
            XmlEvent::End(n) => {
                if same_text(n.as_str(), WORKOUT) {
                    return Ok(RowAction::Insert(self.take_workout_row(RowPhase::Body)));
                }
            },
            XmlEvent::Empty(e) => {
                if same_text(e.name.as_str(), METADATA_ENTRY) {
                    let c = metadata_entry_cell(e);
                    let ghost before = self.cells@;
                    self.cells.push(c);
                    assert(cells_view(self.cells@) =~= cells_view(before).push(metadata_cell(*e)));
                } else if same_text(e.name.as_str(), WORKOUT_EVENT) {
                    let f = element_object_fields(e);
                    let ghost before = self.events@;
                    self.events.push(f);
                    assert(events_view(self.events@) =~= events_view(before).push(fields_view(f@)));
                } else if same_text(e.name.as_str(), WORKOUT_STATISTICS) {
                    match record_kind(e) {
                        Some(k) => {
                            let f = element_object_fields(e);
                            self.add_statistic(k, f);
                        },
                        None => {
                            return Err(LoadError::MissingKind);
                        },
                    }
                }
            },
            XmlEvent::Start(e) => {
                if same_text(e.name.as_str(), WORKOUT_ROUTE) {
                    self.phase = RowPhase::InRoute;
                }
            },
            XmlEvent::Other => {},
        }
        Ok(RowAction::Nothing)
    }

    fn feed_route(&mut self, ev: &XmlEvent) -> (r: Result<RowAction, LoadError>)
        requires
            old(self).wf(),
            old(self).phase is InRoute,
        ensures
            final(self).wf(),
            row_feed_ok(old(self).state(), *ev, final(self).state(), r),
    {
        match ev {
            XmlEvent::Eof => {
                return Err(LoadError::Truncated);
            },
            XmlEvent::End(n) => {
                if same_text(n.as_str(), WORKOUT_ROUTE) {
                    self.phase = RowPhase::InWorkout;
                }
            },
            XmlEvent::Empty(e) => {
                if same_text(e.name.as_str(), FILE_REFERENCE) {
                    let path = attribute_or_empty(e, PATH_ATTRIBUTE);
                    let mut entry = String::from_str(ROUTE_ENTRY_PREFIX);
                    entry.append(path.as_str());
                    return Ok(RowAction::ResolveRoute(entry));
                }
            },
            _ => {},
        }
        Ok(RowAction::Nothing)
    }

    fn feed_record(&mut self, kind: String, ev: &XmlEvent) -> (r: Result<RowAction, LoadError>)
        requires
            old(self).wf(),
            old(self).phase == RowPhase::InRecord(kind),
        ensures
            final(self).wf(),
            row_feed_ok(old(self).state(), *ev, final(self).state(), r),
    {
        match ev {
            XmlEvent::Eof => {
                return Err(LoadError::Truncated);
            },
            XmlEvent::End(n) => {
                if same_text(n.as_str(), RECORD) {
                    let mut cells: Vec<(String, Value)> = Vec::new();
                    std::mem::swap(&mut cells, &mut self.cells);
                    self.clear(RowPhase::Body);
                    return Ok(RowAction::Insert(Row { table: kind, cells }));
                }
            },
            XmlEvent::Empty(e) => {
                if same_text(e.name.as_str(), METADATA_ENTRY) {
                    let c = metadata_entry_cell(e);
                    let ghost before = self.cells@;
                    self.cells.push(c);
                    assert(cells_view(self.cells@) =~= cells_view(before).push(metadata_cell(*e)));
                }
            },
            _ => {},
        }
        Ok(RowAction::Nothing)
    }

    /// Takes one event of the document; returns what the caller must do
    /// next. Fails, leaving the builder as it was, on a record or statistics
    /// element without a kind, and where the document ends inside an open
    /// workout, route or record.
    pub fn feed(&mut self, ev: &XmlEvent) -> (r: Result<RowAction, LoadError>)
        requires
            old(self).wf(),
        ensures
            final(self).wf(),
            row_feed_ok(old(self).state(), *ev, final(self).state(), r),
    {
        let kind: Option<String> = match &self.phase {
            RowPhase::InRecord(k) => Some(k.clone()),
            _ => None,
        };
        match kind {
            Some(k) => self.feed_record(k, ev),
            None => match self.phase {
                RowPhase::Prolog => {
                    match ev {
                        XmlEvent::Start(e) => {
                            if same_text(e.name.as_str(), HEALTH_DATA) {
                                self.phase = RowPhase::Body;
                            }
                        },
                        XmlEvent::Eof => {
                            self.phase = RowPhase::Done;
                        },
                        _ => {},
                    }
                    Ok(RowAction::Nothing)
                },
                RowPhase::Body => self.feed_body(ev),
                RowPhase::InWorkout => self.feed_workout(ev),
                RowPhase::InRoute => self.feed_route(ev),
                _ => Ok(RowAction::Nothing),
            },
        }
    }

    /// Gives the workout being read the coordinates of its route.
    pub fn attach_route(&mut self, coordinates: Vec<(String, String)>)
        requires
            old(self).wf(),
        ensures
            final(self).wf(),
            final(self).state() == (RowState { route: Some(coordinates_view(coordinates@)), ..old(self).state() }),
    {
        self.route = Some(coordinates);
    }
}

/// The row pass never attaches a route by itself: a step keeps the route
/// gathered so far or clears it, so a workout gets coordinates only where
/// the caller, asked to resolve a route reference, attaches them.
pub proof fn lemma_step_adds_no_route(st: RowState, ev: XmlEvent)
    requires
        row_step(st, ev) is Ok,
    ensures
        row_step(st, ev).unwrap().0.route == st.route || row_step(st, ev).unwrap().0.route is None,
        st.phase != RowPhaseView::InRoute ==> !(row_step(st, ev).unwrap().1 is ResolveRoute),
{
}

/// A workout read without a route reference is written with a geometry
/// whose coordinate sequence is empty, and without error.
pub proof fn lemma_workout_without_route(st: RowState, ev: XmlEvent)
    requires
        st.phase == RowPhaseView::InWorkout,
        st.route is None,
        ev matches XmlEvent::End(n) && n@ == WORKOUT@,
    ensures
        row_step(st, ev) is Ok,
        row_step(st, ev).unwrap().1 == ActionView::Insert(WORKOUT@, workout_cells(st)),
        workout_cells(st).last() == (GEOMETRY_COLUMN@, ValueView::Structured(StructuredView::Route(None))),
{
}

} // verus!
