//! The schema pass: folds a document's events into tables whose columns
//! and types are fixed by the first element that shows them.
use vstd::prelude::*;
use crate::event::{
    attr_value,
    metadata_column_name, attribute_or_empty, record_kind, LoadError, KEY_ATTRIBUTE, VALUE_ATTRIBUTE,
    attrs_view, element_kind, metadata_entry_column, metadata_entry_value, Element, XmlEvent, ACTIVITY_SUMMARY,
    GEOMETRY_COLUMN, HEALTH_DATA, METADATA_ENTRY, RECORD, WORKOUT, WORKOUT_EVENT, WORKOUT_EVENTS_COLUMN,
    WORKOUT_ROUTE, WORKOUT_STATISTICS, WORKOUT_STATISTICS_COLUMN,
};
use crate::text::same_text;
use crate::value::{classify, classify_text, StorageType};

verus! {

pub struct Column {
    pub name: String,
    pub ty: StorageType,
}

pub struct Table {
    pub name: String,
    pub columns: Vec<Column>,
}

/// The tables that a schema pass found. Tables, and the columns of each,
/// stand in the order in which the document first shows them; that order
/// is the declaration order of the statements built from them.
pub struct Schema {
    pub tables: Vec<Table>,
}

pub type ColumnsView = Seq<(Seq<char>, StorageType)>;

pub type TableView = (Seq<char>, ColumnsView);

pub open spec fn columns_view(c: Seq<Column>) -> ColumnsView {
    c.map_values(|x: Column| (x.name@, x.ty))
}

pub open spec fn table_view(t: Table) -> TableView {
    (t.name@, columns_view(t.columns@))
}

pub open spec fn tables_view(t: Seq<Table>) -> Seq<TableView> {
    t.map_values(|x: Table| table_view(x))
}

pub open spec fn has_column(c: ColumnsView, name: Seq<char>) -> bool {
    exists|i: int| 0 <= i < c.len() && #[trigger] c[i].0 == name
}

/// `c` with a column `name` of type `ty` added, unless it has one already.
pub open spec fn with_column(c: ColumnsView, name: Seq<char>, ty: StorageType) -> ColumnsView {
    if has_column(c, name) {
        c
    } else {
        c.push((name, ty))
    }
}

pub open spec fn has_table(v: Seq<TableView>, name: Seq<char>) -> bool {
    exists|i: int| 0 <= i < v.len() && #[trigger] v[i].0 == name
}

/// `v` with an empty table `name` added, unless it has one already.
pub open spec fn with_table(v: Seq<TableView>, name: Seq<char>) -> Seq<TableView> {
    if has_table(v, name) {
        v
    } else {
        v.push((name, Seq::empty()))
    }
}

/// `v` with the column `col` of type `ty` added to the table `t`, the table
/// being created first where it is missing.
pub open spec fn with_table_column(v: Seq<TableView>, t: Seq<char>, col: Seq<char>, ty: StorageType) -> Seq<TableView> {
    with_table(v, t).map_values(
        |e: TableView|
            if e.0 == t {
                (e.0, with_column(e.1, col, ty))
            } else {
                e
            },
    )
}

/// `v` with a column for each attribute of an element of table `t`, typed
/// by the attribute's value, in attribute order.
pub open spec fn with_element_columns(v: Seq<TableView>, t: Seq<char>, attrs: Seq<(Seq<char>, Seq<char>)>) -> Seq<TableView>
    decreases attrs.len(),
{
    if attrs.len() == 0 {
        with_table(v, t)
    } else {
        with_table_column(
            with_element_columns(v, t, attrs.drop_last()),
            t,
            attrs.last().0,
            classify(attrs.last().1),
        )
    }
}

pub open spec fn unique_names(v: Seq<TableView>) -> bool {
    forall|i: int, j: int| 0 <= i < v.len() && 0 <= j < v.len() && #[trigger] v[i].0 == #[trigger] v[j].0 ==> i == j
}

/// Where the schema pass stands in the document.
pub enum Phase {
    Prolog,
    Body,
    InWorkout,
    InRecord(String),
    Done,
}

pub enum PhaseView {
    Prolog,
    Body,
    InWorkout,
    InRecord(Seq<char>),
    Done,
}

pub open spec fn phase_view(p: Phase) -> PhaseView {
    match p {
        Phase::Prolog => PhaseView::Prolog,
        Phase::Body => PhaseView::Body,
        Phase::InWorkout => PhaseView::InWorkout,
        Phase::InRecord(k) => PhaseView::InRecord(k@),
        Phase::Done => PhaseView::Done,
    }
}

pub struct SchemaState {
    pub phase: PhaseView,
    pub tables: Seq<TableView>,
}

pub open spec fn initial_schema_state() -> SchemaState {
    SchemaState { phase: PhaseView::Prolog, tables: Seq::empty() }
}

pub open spec fn in_phase(st: SchemaState, p: PhaseView) -> SchemaState {
    SchemaState { phase: p, tables: st.tables }
}

pub open spec fn with_tables(st: SchemaState, t: Seq<TableView>) -> SchemaState {
    SchemaState { phase: st.phase, tables: t }
}

/// The schema pass on one event: `None` where the document is refused.
pub open spec fn schema_step(st: SchemaState, ev: XmlEvent) -> Option<SchemaState> {
    match st.phase {
        PhaseView::Done => Some(st),
        PhaseView::Prolog => match ev {
            XmlEvent::Start(e) => if e.name@ == HEALTH_DATA@ {
                Some(in_phase(st, PhaseView::Body))
            } else {
                Some(st)
            },
            XmlEvent::Eof => Some(in_phase(st, PhaseView::Done)),
            _ => Some(st),
        },
        PhaseView::Body => match ev {
            XmlEvent::Eof => Some(in_phase(st, PhaseView::Done)),
            XmlEvent::Start(e) => if e.name@ == WORKOUT@ {
                Some(SchemaState {
                    phase: PhaseView::InWorkout,
                    tables: with_element_columns(st.tables, WORKOUT@, attrs_view(e.attributes@)),
                })
            } else if e.name@ == RECORD@ {
                match element_kind(e) {
                    Some(k) => Some(SchemaState {
                        phase: PhaseView::InRecord(k),
                        tables: with_element_columns(st.tables, k, attrs_view(e.attributes@)),
                    }),
                    None => None,
                }
            } else {
                Some(st)
            },
            XmlEvent::Empty(e) => if e.name@ == RECORD@ {
                match element_kind(e) {
                    Some(k) => Some(with_tables(st, with_element_columns(st.tables, k, attrs_view(e.attributes@)))),
                    None => None,
                }
            } else if e.name@ == ACTIVITY_SUMMARY@ {
                Some(with_tables(st, with_element_columns(st.tables, ACTIVITY_SUMMARY@, attrs_view(e.attributes@))))
            } else {
                Some(st)
            },
            _ => Some(st),
        },
        PhaseView::InWorkout => match ev {
            XmlEvent::Eof => None,
            XmlEvent::End(n) => if n@ == WORKOUT@ {
                Some(in_phase(st, PhaseView::Body))
            } else {
                Some(st)
            },
            XmlEvent::Empty(e) => if e.name@ == METADATA_ENTRY@ {
                Some(with_tables(st, with_table_column(st.tables, WORKOUT@, metadata_entry_column(e), classify(metadata_entry_value(e)))))
            } else if e.name@ == WORKOUT_EVENT@ {
                Some(with_tables(st, with_table_column(st.tables, WORKOUT@, WORKOUT_EVENTS_COLUMN@, StorageType::Structured)))
            } else if e.name@ == WORKOUT_STATISTICS@ {
                Some(with_tables(st, with_table_column(st.tables, WORKOUT@, WORKOUT_STATISTICS_COLUMN@, StorageType::Structured)))
            } else {
                Some(st)
            },
            XmlEvent::Start(e) => if e.name@ == WORKOUT_ROUTE@ {
                Some(with_tables(st, with_table_column(st.tables, WORKOUT@, GEOMETRY_COLUMN@, StorageType::Structured)))
            } else {
                Some(st)
            },
            XmlEvent::Other => Some(st),
        },
        PhaseView::InRecord(k) => match ev {
            XmlEvent::Eof => None,
            XmlEvent::End(n) => if n@ == RECORD@ {
                Some(in_phase(st, PhaseView::Body))
            } else {
                Some(st)
            },
            XmlEvent::Empty(e) => if e.name@ == METADATA_ENTRY@ {
                Some(with_tables(st, with_table_column(st.tables, k, metadata_entry_column(e), classify(metadata_entry_value(e)))))
            } else {
                Some(st)
            },
            _ => Some(st),
        },
    }
}

/// Why the schema pass refuses event `ev` from state `st`.
pub open spec fn schema_error(st: SchemaState, ev: XmlEvent) -> LoadError {
    if ev is Eof && (st.phase is InWorkout || st.phase is InRecord) {
        LoadError::Truncated
    } else {
        LoadError::MissingKind
    }
}

/// The schema pass over a whole event sequence: `None` where it is refused.
pub open spec fn schema_run(evs: Seq<XmlEvent>) -> Option<SchemaState>
    decreases evs.len(),
{
    if evs.len() == 0 {
        Some(initial_schema_state())
    } else {
        match schema_run(evs.drop_last()) {
            Some(st) => schema_step(st, evs.last()),
            None => None,
        }
    }
}

fn column_index(c: &Vec<Column>, name: &str) -> (r: Option<usize>)
    ensures
        r matches Some(i) ==> i < c@.len() && c@[i as int].name@ == name@,
        r is None <==> !has_column(columns_view(c@), name@),
{
    let n = c.len();
    let mut i: usize = 0;
    while i < n
        invariant
            n == c@.len(),
            i <= n,
            forall|j: int| 0 <= j < i ==> c@[j].name@ != name@,
        decreases n - i,
    {
        if same_text(c[i].name.as_str(), name) {
            proof {
                assert(columns_view(c@)[i as int].0 == name@);
            }
            return Some(i);
        }
        i = i + 1;
    }
    proof {
        if has_column(columns_view(c@), name@) {
            let j = choose|j: int| 0 <= j < columns_view(c@).len() && #[trigger] columns_view(c@)[j].0 == name@;
            assert(c@[j].name@ == name@);
        }
    }
    None
}

/// Why the schema pass refuses `evs`: the error of the first refused event.
pub open spec fn schema_failure(evs: Seq<XmlEvent>) -> LoadError
    decreases evs.len(),
{
    if evs.len() == 0 {
        LoadError::MissingKind
    } else {
        match schema_run(evs.drop_last()) {
            Some(st) => schema_error(st, evs.last()),
            None => schema_failure(evs.drop_last()),
        }
    }
}

/// Accumulates the schema as the document's events go by.
pub struct SchemaBuilder {
    phase: Phase,
    tables: Vec<Table>,
}

impl SchemaBuilder {
    pub closed spec fn state(&self) -> SchemaState {
        SchemaState { phase: phase_view(self.phase), tables: tables_view(self.tables@) }
    }

    pub closed spec fn wf(&self) -> bool {
        unique_names(tables_view(self.tables@))
    }

    pub fn new() -> (r: SchemaBuilder)
        ensures
            r.wf(),
            r.state() == initial_schema_state(),
    {
        let r = SchemaBuilder { phase: Phase::Prolog, tables: Vec::new() };
        assert(tables_view(r.tables@) =~= Seq::empty());
        r
    }

    fn table_index(&self, name: &str) -> (r: Option<usize>)
        ensures
            r matches Some(i) ==> i < self.tables@.len() && self.tables@[i as int].name@ == name@,
            r is None <==> !has_table(tables_view(self.tables@), name@),
    {
        let n = self.tables.len();
        let mut i: usize = 0;
        while i < n
            invariant
                n == self.tables@.len(),
                i <= n,
                forall|j: int| 0 <= j < i ==> self.tables@[j].name@ != name@,
            decreases n - i,
        {
            if same_text(self.tables[i].name.as_str(), name) {
                proof {
                    assert(tables_view(self.tables@)[i as int].0 == name@);
                }
                return Some(i);
            }
            i = i + 1;
        }
        proof {
            let v = tables_view(self.tables@);
            if has_table(v, name@) {
                let j = choose|j: int| 0 <= j < v.len() && #[trigger] v[j].0 == name@;
                assert(self.tables@[j].name@ == name@);
            }
        }
        None
    }

    fn touch_table(&mut self, name: &str) -> (r: usize)
        requires
            old(self).wf(),
        ensures
            final(self).wf(),
            final(self).phase == old(self).phase,
            tables_view(final(self).tables@) == with_table(tables_view(old(self).tables@), name@),
            r < final(self).tables@.len(),
            final(self).tables@[r as int].name@ == name@,
    {
        match self.table_index(name) {
            Some(i) => i,
            None => {
                let ghost v = tables_view(self.tables@);
                self.tables.push(Table { name: name.to_owned(), columns: Vec::new() });
                proof {
                    let w = tables_view(self.tables@);
                    assert(columns_view(self.tables@.last().columns@) =~= Seq::empty());
                    assert(w =~= v.push((name@, Seq::empty())));
                    assert forall|a: int, b: int| 0 <= a < w.len() && 0 <= b < w.len() && #[trigger] w[a].0 == #[trigger] w[b].0 implies a == b by {
                        if a < v.len() && b == v.len() {
                            assert(v[a].0 == name@);
                        }
                        if b < v.len() && a == v.len() {
                            assert(v[b].0 == name@);
                        }
                    }
                }
                self.tables.len() - 1
            },
        }
    }

    fn add_column(&mut self, table: &str, col: &str, ty: StorageType)
        requires
            old(self).wf(),
        ensures
            final(self).wf(),
            final(self).phase == old(self).phase,
            tables_view(final(self).tables@) == with_table_column(tables_view(old(self).tables@), table@, col@, ty),
    {
        let i = self.touch_table(table);
        let ghost v = tables_view(self.tables@);
        let ghost old_tables = self.tables@;
        let mut t = self.tables.remove(i);
        if column_index(&t.columns, col).is_none() {
            let ghost before = t.columns@;
            t.columns.push(Column { name: col.to_owned(), ty });
            assert(columns_view(t.columns@) =~= columns_view(before).push((col@, ty)));
        }
        assert(columns_view(t.columns@) == with_column(v[i as int].1, col@, ty));
        self.tables.insert(i, t);
        proof {
            assert(self.tables@ =~= old_tables.update(i as int, t));
            let w = tables_view(self.tables@);
            let target = v.map_values(
                |e: TableView|
                    if e.0 == table@ {
                        (e.0, with_column(e.1, col@, ty))
                    } else {
                        e
                    },
            );
            assert forall|j: int| 0 <= j < w.len() implies w[j] == target[j] by {
                if j != i {
                    assert(v[j].0 != v[i as int].0);
                }
            }
            assert(w =~= target);
        }
    }

    fn add_element_columns(&mut self, table: &str, e: &Element)
        requires
            old(self).wf(),
        ensures
            final(self).wf(),
            final(self).phase == old(self).phase,
            tables_view(final(self).tables@) == with_element_columns(
                tables_view(old(self).tables@),
                table@,
                attrs_view(e.attributes@),
            ),
    {
        let ghost v0 = tables_view(self.tables@);
        let ghost a = attrs_view(e.attributes@);
        self.touch_table(table);
        assert(a.take(0) =~= Seq::empty());
        let n = e.attributes.len();
        let mut k: usize = 0;
        while k < n
            invariant
                n == e.attributes@.len(),
                a == attrs_view(e.attributes@),
                k <= n,
                self.wf(),
                self.phase == old(self).phase,
                tables_view(self.tables@) == with_element_columns(v0, table@, a.take(k as int)),
            decreases n - k,
        {
            let ty = classify_text(e.attributes[k].1.as_str());
            self.add_column(table, e.attributes[k].0.as_str(), ty);
            assert(a.take(k + 1).drop_last() =~= a.take(k as int));
            k = k + 1;
        }
        assert(a.take(n as int) =~= a);
    }

    fn add_metadata_column(&mut self, table: &str, e: &Element)
        requires
            old(self).wf(),
        ensures
            final(self).wf(),
            final(self).phase == old(self).phase,
            tables_view(final(self).tables@) == with_table_column(
                tables_view(old(self).tables@),
                table@,
                metadata_entry_column(*e),
                classify(metadata_entry_value(*e)),
            ),
    {
        let key = attribute_or_empty(e, KEY_ATTRIBUTE);
        let value = attribute_or_empty(e, VALUE_ATTRIBUTE);
        let col = metadata_column_name(key.as_str());
        let ty = classify_text(value.as_str());
        self.add_column(table, col.as_str(), ty);
    }

    fn feed_body(&mut self, ev: &XmlEvent) -> (r: Result<(), LoadError>)
        requires
            old(self).wf(),
            old(self).phase is Body,
        ensures
            final(self).wf(),
            match schema_step(old(self).state(), *ev) {
                Some(st) => r is Ok && final(self).state() == st,
                None => r == Err::<(), LoadError>(schema_error(old(self).state(), *ev)) && final(self).state() == old(self).state(),
            },
    {
        match ev {
            XmlEvent::Eof => {
                self.phase = Phase::Done;
            },
            XmlEvent::Start(e) => {
                if same_text(e.name.as_str(), WORKOUT) {
                    self.add_element_columns(WORKOUT, e);
                    self.phase = Phase::InWorkout;
                } else if same_text(e.name.as_str(), RECORD) {
                    match record_kind(e) {
                        Some(k) => {
                            self.add_element_columns(k.as_str(), e);
                            self.phase = Phase::InRecord(k);
                        },
                        None => {
                            return Err(LoadError::MissingKind);
                        },
                    }
                }
            },
            XmlEvent::Empty(e) => {
                if same_text(e.name.as_str(), RECORD) {
                    match record_kind(e) {
                        Some(k) => {
                            self.add_element_columns(k.as_str(), e);
                        },
                        None => {
                            return Err(LoadError::MissingKind);
                        },
                    }
                } else if same_text(e.name.as_str(), ACTIVITY_SUMMARY) {
                    self.add_element_columns(ACTIVITY_SUMMARY, e);
                }
            },
            _ => {},
        }
        Ok(())
    }

    fn feed_workout(&mut self, ev: &XmlEvent) -> (r: Result<(), LoadError>)
        requires
            old(self).wf(),
            old(self).phase is InWorkout,
        ensures
            final(self).wf(),
            match schema_step(old(self).state(), *ev) {
                Some(st) => r is Ok && final(self).state() == st,
                None => r == Err::<(), LoadError>(schema_error(old(self).state(), *ev)) && final(self).state() == old(self).state(),
            },
    {
        match ev {
            XmlEvent::Eof => {
                return Err(LoadError::Truncated);
            },
            XmlEvent::End(n) => {
                if same_text(n.as_str(), WORKOUT) {
                    self.phase = Phase::Body;
                }
            },
            XmlEvent::Empty(e) => {
                if same_text(e.name.as_str(), METADATA_ENTRY) {
                    self.add_metadata_column(WORKOUT, e);
                } else if same_text(e.name.as_str(), WORKOUT_EVENT) {
                    self.add_column(WORKOUT, WORKOUT_EVENTS_COLUMN, StorageType::Structured);
                } else if same_text(e.name.as_str(), WORKOUT_STATISTICS) {
                    self.add_column(WORKOUT, WORKOUT_STATISTICS_COLUMN, StorageType::Structured);
                }
            },
            XmlEvent::Start(e) => {
                if same_text(e.name.as_str(), WORKOUT_ROUTE) {
                    self.add_column(WORKOUT, GEOMETRY_COLUMN, StorageType::Structured);
                }
            },
            XmlEvent::Other => {},
        }
        Ok(())
    }

    fn feed_record(&mut self, kind: &String, ev: &XmlEvent) -> (r: Result<(), LoadError>)
        requires
            old(self).wf(),
            old(self).phase == Phase::InRecord(*kind),
        ensures
            final(self).wf(),
            match schema_step(old(self).state(), *ev) {
                Some(st) => r is Ok && final(self).state() == st,
                None => r == Err::<(), LoadError>(schema_error(old(self).state(), *ev)) && final(self).state() == old(self).state(),
            },
    {
        match ev {
            XmlEvent::Eof => {
                return Err(LoadError::Truncated);
            },
            XmlEvent::End(n) => {
                if same_text(n.as_str(), RECORD) {
                    self.phase = Phase::Body;
                }
            },
            XmlEvent::Empty(e) => {
                if same_text(e.name.as_str(), METADATA_ENTRY) {
                    self.add_metadata_column(kind.as_str(), e);
                }
            },
            _ => {},
        }
        Ok(())
    }

    /// Takes one event of the document into the schema. Fails, leaving the
    /// schema as it was, on a record element without a kind, and where the
    /// document ends inside an open workout or record.
    pub fn feed(&mut self, ev: &XmlEvent) -> (r: Result<(), LoadError>)
        requires
            old(self).wf(),
        ensures
            final(self).wf(),
            match schema_step(old(self).state(), *ev) {
                Some(st) => r is Ok && final(self).state() == st,
                None => r == Err::<(), LoadError>(schema_error(old(self).state(), *ev)) && final(self).state() == old(self).state(),
            },
    {
        let kind: Option<String> = match &self.phase {
            Phase::InRecord(k) => Some(k.clone()),
            _ => None,
        };
        match kind {
            Some(k) => self.feed_record(&k, ev),
            None => {
                match self.phase {
                    Phase::Done => Ok(()),
                    Phase::Prolog => {
                        match ev {
                            XmlEvent::Start(e) => {
                                if same_text(e.name.as_str(), HEALTH_DATA) {
                                    self.phase = Phase::Body;
                                }
                            },
                            XmlEvent::Eof => {
                                self.phase = Phase::Done;
                            },
                            _ => {},
                        }
                        Ok(())
                    },
                    Phase::Body => self.feed_body(ev),
                    Phase::InWorkout => self.feed_workout(ev),
                    Phase::InRecord(_) => Ok(()),
                }
            },
        }
    }

    /// The tables found so far.
    pub fn finish(self) -> (r: Schema)
        ensures
            tables_view(r.tables@) == self.state().tables,
    {
        Schema { tables: self.tables }
    }
}

/// Runs the schema pass over a whole document's events. Fails, creating no
/// schema, where a record element has no kind or the document is cut off
/// inside an element.
pub fn build_schema(events: &Vec<XmlEvent>) -> (r: Result<Schema, LoadError>)
    ensures
        match schema_run(events@) {
            Some(st) => r matches Ok(s) && tables_view(s.tables@) == st.tables,
            None => r == Err::<Schema, LoadError>(schema_failure(events@)),
        },
{
    let mut b = SchemaBuilder::new();
    let n = events.len();
    let mut i: usize = 0;
    assert(events@.take(0) =~= Seq::<XmlEvent>::empty());
    while i < n
        invariant
            n == events@.len(),
            i <= n,
            b.wf(),
            schema_run(events@.take(i as int)) == Some(b.state()),
        decreases n - i,
    {
        assert(events@.take(i + 1).drop_last() =~= events@.take(i as int));
        match b.feed(&events[i]) {
            Ok(()) => {},
            Err(e) => {
                proof {
                    assert(schema_failure(events@.take(i + 1)) == e);
                    lemma_refusal_is_final(events@, i as int + 1);
                }
                return Err(e);
            },
        }
        i = i + 1;
    }
    assert(events@.take(n as int) =~= events@);
    Ok(b.finish())
}

/// Once the schema pass refuses a prefix of the document, it refuses the
/// whole document.
pub proof fn lemma_refusal_is_final(evs: Seq<XmlEvent>, k: int)
    requires
        0 <= k <= evs.len(),
        schema_run(evs.take(k)) is None,
    ensures
        schema_run(evs) is None,
        schema_failure(evs) == schema_failure(evs.take(k)),
    decreases evs.len() - k,
{
    if k < evs.len() {
        assert(evs.take(k + 1).drop_last() =~= evs.take(k));
        lemma_refusal_is_final(evs, k + 1);
    } else {
        assert(evs.take(k) =~= evs);
    }
}

/// The schema pass is a function of the events alone: two passes over the
/// same events give the same tables, column for column and type for type.
pub proof fn lemma_schema_deterministic(a: Seq<XmlEvent>, b: Seq<XmlEvent>)
    requires
        a == b,
    ensures
        schema_run(a) == schema_run(b),
{
}

/// A record element without a kind, met where records are read, makes the
/// schema pass refuse the whole document, so that no table is created.
pub proof fn lemma_record_without_kind_refused(evs: Seq<XmlEvent>, i: int)
    requires
        0 <= i < evs.len(),
        schema_run(evs.take(i)) matches Some(st) && st.phase == PhaseView::Body,
        match evs[i] {
            XmlEvent::Start(e) => e.name@ == RECORD@ && element_kind(e) is None,
            XmlEvent::Empty(e) => e.name@ == RECORD@ && element_kind(e) is None,
            _ => false,
        },
    ensures
        schema_run(evs) is None,
{
    assert(evs.take(i + 1).drop_last() =~= evs.take(i));
    assert(evs.take(i + 1).last() == evs[i]);
    reveal_strlit("Workout");
    reveal_strlit("Record");
    assert(WORKOUT@.len() == 7);
    assert(RECORD@.len() == 6);
    lemma_refusal_is_final(evs, i + 1);
}

/// A document that ends inside an open workout or record element is
/// refused as truncated, so that no table is created.
pub proof fn lemma_truncated_document_refused(evs: Seq<XmlEvent>, i: int)
    requires
        0 <= i < evs.len(),
        schema_run(evs.take(i)) matches Some(st) && (st.phase is InWorkout || st.phase is InRecord),
        evs[i] is Eof,
    ensures
        schema_run(evs) is None,
        schema_failure(evs) == LoadError::Truncated,
{
    assert(evs.take(i + 1).drop_last() =~= evs.take(i));
    assert(evs.take(i + 1).last() == evs[i]);
    lemma_refusal_is_final(evs, i + 1);
}

/// A table's column, once present, keeps its place and its type: the type
/// is fixed by the first element that shows the column.
pub open spec fn columns_kept(v: Seq<TableView>, w: Seq<TableView>) -> bool {
    &&& v.len() <= w.len()
    &&& forall|j: int| 0 <= j < v.len() ==> (#[trigger] w[j]).0 == v[j].0 && v[j].1.len() <= w[j].1.len()
        && forall|i: int| 0 <= i < v[j].1.len() ==> #[trigger] w[j].1[i] == v[j].1[i]
}

proof fn lemma_with_table_column_keeps(v: Seq<TableView>, t: Seq<char>, c: Seq<char>, ty: StorageType)
    ensures
        columns_kept(v, with_table_column(v, t, c, ty)),
{
    let w = with_table_column(v, t, c, ty);
    let u = with_table(v, t);
    assert forall|j: int| 0 <= j < v.len() implies (#[trigger] w[j]).0 == v[j].0 && v[j].1.len() <= w[j].1.len()
        && forall|i: int| 0 <= i < v[j].1.len() ==> #[trigger] w[j].1[i] == v[j].1[i] by {
        assert(u[j] == v[j]);
    }
}

proof fn lemma_kept_transitive(a: Seq<TableView>, b: Seq<TableView>, c: Seq<TableView>)
    requires
        columns_kept(a, b),
        columns_kept(b, c),
    ensures
        columns_kept(a, c),
{
    assert forall|j: int| 0 <= j < a.len() implies (#[trigger] c[j]).0 == a[j].0 && a[j].1.len() <= c[j].1.len()
        && forall|i: int| 0 <= i < a[j].1.len() ==> #[trigger] c[j].1[i] == a[j].1[i] by {
        assert(b[j].0 == a[j].0);
        assert forall|i: int| 0 <= i < a[j].1.len() implies #[trigger] c[j].1[i] == a[j].1[i] by {
            assert(b[j].1[i] == a[j].1[i]);
        }
    }
}

proof fn lemma_element_columns_keep(v: Seq<TableView>, t: Seq<char>, attrs: Seq<(Seq<char>, Seq<char>)>)
    ensures
        columns_kept(v, with_element_columns(v, t, attrs)),
    decreases attrs.len(),
{
    if attrs.len() == 0 {
        let u = with_table(v, t);
        assert forall|j: int| 0 <= j < v.len() implies (#[trigger] u[j]).0 == v[j].0 && v[j].1.len() <= u[j].1.len()
            && forall|i: int| 0 <= i < v[j].1.len() ==> #[trigger] u[j].1[i] == v[j].1[i] by {}
    } else {
        let p = with_element_columns(v, t, attrs.drop_last());
        lemma_element_columns_keep(v, t, attrs.drop_last());
        lemma_with_table_column_keeps(p, t, attrs.last().0, classify(attrs.last().1));
        lemma_kept_transitive(v, p, with_element_columns(v, t, attrs));
    }
}

proof fn lemma_kept_reflexive(v: Seq<TableView>)
    ensures
        columns_kept(v, v),
{
}

/// One event of the schema pass never moves or retypes a column.
pub proof fn lemma_step_keeps_columns(st: SchemaState, ev: XmlEvent)
    requires
        schema_step(st, ev) is Some,
    ensures
        columns_kept(st.tables, schema_step(st, ev).unwrap().tables),
{
    let v = st.tables;
    lemma_kept_reflexive(v);
    match ev {
        XmlEvent::Start(e) => {
            lemma_element_columns_keep(v, WORKOUT@, attrs_view(e.attributes@));
            if let Some(k) = element_kind(e) {
                lemma_element_columns_keep(v, k, attrs_view(e.attributes@));
            }
            lemma_with_table_column_keeps(v, WORKOUT@, GEOMETRY_COLUMN@, StorageType::Structured);
        },
        XmlEvent::Empty(e) => {
            if let Some(k) = element_kind(e) {
                lemma_element_columns_keep(v, k, attrs_view(e.attributes@));
            }
            lemma_element_columns_keep(v, ACTIVITY_SUMMARY@, attrs_view(e.attributes@));
            lemma_with_table_column_keeps(v, WORKOUT@, metadata_entry_column(e), classify(metadata_entry_value(e)));
            lemma_with_table_column_keeps(v, WORKOUT@, WORKOUT_EVENTS_COLUMN@, StorageType::Structured);
            lemma_with_table_column_keeps(v, WORKOUT@, WORKOUT_STATISTICS_COLUMN@, StorageType::Structured);
            if let PhaseView::InRecord(k) = st.phase {
                lemma_with_table_column_keeps(v, k, metadata_entry_column(e), classify(metadata_entry_value(e)));
            }
        },
        _ => {},
    }
}

/// Over a whole document, a column that the schema pass has introduced
/// stays at its place with the type it was first given.
pub proof fn lemma_columns_fixed_at_first_sight(evs: Seq<XmlEvent>, k: int)
    requires
        0 <= k <= evs.len(),
        schema_run(evs) is Some,
    ensures
        schema_run(evs.take(k)) is Some,
        columns_kept(schema_run(evs.take(k)).unwrap().tables, schema_run(evs).unwrap().tables),
    decreases evs.len() - k,
{
    if k == evs.len() {
        assert(evs.take(k) =~= evs);
        lemma_kept_reflexive(schema_run(evs).unwrap().tables);
    } else {
        lemma_columns_fixed_at_first_sight(evs, k + 1);
        assert(evs.take(k + 1).drop_last() =~= evs.take(k));
        assert(evs.take(k + 1).last() == evs[k]);
        let a = schema_run(evs.take(k)).unwrap();
        lemma_step_keeps_columns(a, evs[k]);
        lemma_kept_transitive(a.tables, schema_run(evs.take(k + 1)).unwrap().tables, schema_run(evs).unwrap().tables);
    }
}

/// Entry `i` of table `j` of `w` is not in `v`.
pub open spec fn is_new_entry(v: Seq<TableView>, w: Seq<TableView>, j: int, i: int) -> bool {
    0 <= j < w.len() && 0 <= i < w[j].1.len() && (j >= v.len() || i >= v[j].1.len())
}

proof fn lemma_attr_value_push(a: Seq<(Seq<char>, Seq<char>)>, x: (Seq<char>, Seq<char>), k: Seq<char>)
    ensures
        attr_value(a.push(x), k) == (match attr_value(a, k) {
            Some(v) => Some(v),
            None => if x.0 == k {
                Some(x.1)
            } else {
                None
            },
        }),
    decreases a.len(),
{
    if a.len() > 0 {
        assert(a.push(x)[0] == a[0]);
        assert(a.push(x).drop_first() =~= a.drop_first().push(x));
        lemma_attr_value_push(a.drop_first(), x, k);
    } else {
        assert(a.push(x)[0] == x);
        assert(a.push(x).drop_first() =~= Seq::<(Seq<char>, Seq<char>)>::empty());
        assert(attr_value(Seq::<(Seq<char>, Seq<char>)>::empty(), k) is None);
        assert(attr_value(a, k) is None);
    }
}

proof fn lemma_attr_value_absent(a: Seq<(Seq<char>, Seq<char>)>, k: Seq<char>)
    requires
        forall|i: int| 0 <= i < a.len() ==> (#[trigger] a[i]).0 != k,
    ensures
        attr_value(a, k) is None,
    decreases a.len(),
{
    if a.len() > 0 {
        assert forall|i: int| 0 <= i < a.drop_first().len() implies (#[trigger] a.drop_first()[i]).0 != k by {
            assert(a.drop_first()[i] == a[i + 1]);
        }
        lemma_attr_value_absent(a.drop_first(), k);
    }
}

proof fn lemma_with_table_column_new(v: Seq<TableView>, t: Seq<char>, c: Seq<char>, ty: StorageType)
    ensures
        forall|j: int, i: int| #[trigger] is_new_entry(v, with_table_column(v, t, c, ty), j, i)
            ==> with_table_column(v, t, c, ty)[j].0 == t && with_table_column(v, t, c, ty)[j].1[i] == (c, ty),
        has_table(with_table_column(v, t, c, ty), t),
        forall|j: int| 0 <= j < with_table_column(v, t, c, ty).len() && #[trigger] with_table_column(v, t, c, ty)[j].0 == t
            ==> has_column(with_table_column(v, t, c, ty)[j].1, c),
{
    let w = with_table_column(v, t, c, ty);
    let u = with_table(v, t);
    assert forall|j: int, i: int| #[trigger] is_new_entry(v, w, j, i) implies w[j].0 == t && w[j].1[i] == (c, ty) by {
        if j < v.len() {
            assert(u[j] == v[j]);
        }
    }
    if !has_table(v, t) {
        assert(w[v.len() as int].0 == t);
    } else {
        let j = choose|j: int| 0 <= j < v.len() && #[trigger] v[j].0 == t;
        assert(w[j].0 == t);
    }
    assert forall|j: int| 0 <= j < w.len() && #[trigger] w[j].0 == t implies has_column(w[j].1, c) by {
        let cols = u[j].1;
        if !has_column(cols, c) {
            assert(w[j].1[cols.len() as int].0 == c);
        }
    }
}

/// The attributes' names are all columns of every table named `t`.
pub open spec fn covers(w: Seq<TableView>, t: Seq<char>, attrs: Seq<(Seq<char>, Seq<char>)>) -> bool {
    forall|j: int, i: int| 0 <= j < w.len() && 0 <= i < attrs.len() && #[trigger] w[j].0 == t ==> has_column(w[j].1, (#[trigger] attrs[i]).0)
}

proof fn lemma_element_columns_new(v: Seq<TableView>, t: Seq<char>, attrs: Seq<(Seq<char>, Seq<char>)>)
    ensures
        has_table(with_element_columns(v, t, attrs), t),
        covers(with_element_columns(v, t, attrs), t, attrs),
        forall|j: int, i: int| #[trigger] is_new_entry(v, with_element_columns(v, t, attrs), j, i) ==> {
            let e = with_element_columns(v, t, attrs)[j].1[i];
            with_element_columns(v, t, attrs)[j].0 == t && (attr_value(attrs, e.0) matches Some(val) && e.1 == classify(val))
        },
    decreases attrs.len(),
{
    let w = with_element_columns(v, t, attrs);
    if attrs.len() == 0 {
        if !has_table(v, t) {
            assert(w[v.len() as int].0 == t);
        }
        assert forall|j: int, i: int| #[trigger] is_new_entry(v, w, j, i) implies false by {
            if j < v.len() {
                assert(w[j] == v[j]);
            }
        }
    } else {
        let a = attrs.drop_last();
        let x = attrs.last();
        let p = with_element_columns(v, t, a);
        let ty = classify(x.1);
        lemma_element_columns_new(v, t, a);
        lemma_with_table_column_new(p, t, x.0, ty);
        lemma_with_table_column_keeps(p, t, x.0, ty);
        lemma_element_columns_keep(v, t, a);
        assert(attrs =~= a.push(x));
        assert forall|j: int, i: int| 0 <= j < w.len() && 0 <= i < attrs.len() && #[trigger] w[j].0 == t implies has_column(w[j].1, (#[trigger] attrs[i]).0) by {
            if i < a.len() {
                assert(attrs[i] == a[i]);
                if j < p.len() {
                    assert(has_column(p[j].1, a[i].0));
                    let k = choose|k: int| 0 <= k < p[j].1.len() && #[trigger] p[j].1[k].0 == a[i].0;
                    assert(w[j].1[k] == p[j].1[k]);
                } else {
                    let k = choose|k: int| 0 <= k < p.len() && #[trigger] p[k].0 == t;
                    assert(with_table(p, t) == p);
                }
            }
        }
        assert forall|j: int, i: int| #[trigger] is_new_entry(v, w, j, i) implies ({
            let e = w[j].1[i];
            w[j].0 == t && (attr_value(attrs, e.0) matches Some(val) && e.1 == classify(val))
        }) by {
            let e = w[j].1[i];
            lemma_attr_value_push(a, x, e.0);
            if is_new_entry(p, w, j, i) {
                assert(w[j].0 == t && e == (x.0, ty));
                if j < p.len() {
                    assert forall|k: int| 0 <= k < a.len() implies (#[trigger] a[k]).0 != x.0 by {
                        if a[k].0 == x.0 {
                            assert(has_column(p[j].1, a[k].0));
                            let m = choose|m: int| 0 <= m < p[j].1.len() && #[trigger] p[j].1[m].0 == a[k].0;
                            assert(!has_column(p[j].1, x.0) || w[j].1 == p[j].1);
                        }
                    }
                    lemma_attr_value_absent(a, x.0);
                } else {
                    let k = choose|k: int| 0 <= k < p.len() && #[trigger] p[k].0 == t;
                    assert(with_table(p, t) == p);
                }
            } else {
                assert(j < p.len() && i < p[j].1.len());
                assert(w[j].1[i] == p[j].1[i]);
                assert(is_new_entry(v, p, j, i));
            }
        }
    }
}

/// How event `ev` may introduce column `col` into table `table`: as an
/// attribute of a workout, record or activity summary element of that
/// table, typed by the attribute's first value; as a metadata entry, typed
/// by its value; or as one of a workout's embedded-document columns, from
/// the child element that stands for it.
pub open spec fn introduced_by(ev: XmlEvent, table: Seq<char>, col: (Seq<char>, StorageType)) -> bool {
    match ev {
        XmlEvent::Start(e) => ((attr_value(attrs_view(e.attributes@), col.0) matches Some(val) && col.1 == classify(val))
            && ((e.name@ == WORKOUT@ && table == WORKOUT@) || (e.name@ == RECORD@ && element_kind(e) == Some(table))))
            || (e.name@ == WORKOUT_ROUTE@ && table == WORKOUT@ && col == (GEOMETRY_COLUMN@, StorageType::Structured)),
        XmlEvent::Empty(e) => ((attr_value(attrs_view(e.attributes@), col.0) matches Some(val) && col.1 == classify(val))
            && ((e.name@ == RECORD@ && element_kind(e) == Some(table)) || (e.name@ == ACTIVITY_SUMMARY@ && table == ACTIVITY_SUMMARY@)))
            || (e.name@ == METADATA_ENTRY@ && col == (metadata_entry_column(e), classify(metadata_entry_value(e))))
            || (e.name@ == WORKOUT_EVENT@ && table == WORKOUT@ && col == (WORKOUT_EVENTS_COLUMN@, StorageType::Structured))
            || (e.name@ == WORKOUT_STATISTICS@ && table == WORKOUT@ && col == (WORKOUT_STATISTICS_COLUMN@, StorageType::Structured)),
        _ => false,
    }
}

/// Every column that one event of the schema pass introduces takes its
/// type from that event's element: from the first value that the element
/// gives it.
pub proof fn lemma_step_introduces_by_first_value(st: SchemaState, ev: XmlEvent)
    requires
        schema_step(st, ev) is Some,
    ensures
        forall|j: int, i: int| #[trigger] is_new_entry(st.tables, schema_step(st, ev).unwrap().tables, j, i)
            ==> introduced_by(ev, schema_step(st, ev).unwrap().tables[j].0, schema_step(st, ev).unwrap().tables[j].1[i]),
{
    let v = st.tables;
    let w = schema_step(st, ev).unwrap().tables;
    match ev {
        XmlEvent::Start(e) => {
            let a = attrs_view(e.attributes@);
            lemma_element_columns_new(v, WORKOUT@, a);
            if let Some(k) = element_kind(e) {
                lemma_element_columns_new(v, k, a);
            }
            lemma_with_table_column_new(v, WORKOUT@, GEOMETRY_COLUMN@, StorageType::Structured);
        },
        XmlEvent::Empty(e) => {
            let a = attrs_view(e.attributes@);
            if let Some(k) = element_kind(e) {
                lemma_element_columns_new(v, k, a);
            }
            lemma_element_columns_new(v, ACTIVITY_SUMMARY@, a);
            lemma_with_table_column_new(v, WORKOUT@, metadata_entry_column(e), classify(metadata_entry_value(e)));
            lemma_with_table_column_new(v, WORKOUT@, WORKOUT_EVENTS_COLUMN@, StorageType::Structured);
            lemma_with_table_column_new(v, WORKOUT@, WORKOUT_STATISTICS_COLUMN@, StorageType::Structured);
            if let PhaseView::InRecord(k) = st.phase {
                lemma_with_table_column_new(v, k, metadata_entry_column(e), classify(metadata_entry_value(e)));
            }
        },
        _ => {
            assert forall|j: int, i: int| #[trigger] is_new_entry(v, w, j, i) implies false by {}
        },
    }
}

/// Some event of `evs` introduces the column `col` into table `table`.
pub open spec fn introduced_in(evs: Seq<XmlEvent>, table: Seq<char>, col: (Seq<char>, StorageType)) -> bool {
    exists|k: int| 0 <= k < evs.len() && introduced_by(#[trigger] evs[k], table, col)
}

/// Every column of the finished schema was introduced into its table by
/// some element of the document read for that table, and has the type that
/// element first gave it.
pub proof fn lemma_every_column_introduced(evs: Seq<XmlEvent>)
    requires
        schema_run(evs) is Some,
    ensures
        forall|j: int, i: int|
            0 <= j < schema_run(evs).unwrap().tables.len() && 0 <= i < schema_run(evs).unwrap().tables[j].1.len()
                ==> introduced_in(evs, schema_run(evs).unwrap().tables[j].0, #[trigger] schema_run(evs).unwrap().tables[j].1[i]),
    decreases evs.len(),
{
    let w = schema_run(evs).unwrap().tables;
    if evs.len() > 0 {
        let p = evs.drop_last();
        lemma_every_column_introduced(p);
        let a = schema_run(p).unwrap();
        lemma_step_keeps_columns(a, evs.last());
        lemma_step_introduces_by_first_value(a, evs.last());
        assert forall|j: int, i: int| 0 <= j < w.len() && 0 <= i < w[j].1.len() implies introduced_in(evs, w[j].0, #[trigger] w[j].1[i]) by {
            if is_new_entry(a.tables, w, j, i) {
                assert(evs[evs.len() - 1] == evs.last());
                assert(introduced_by(evs[evs.len() - 1], w[j].0, w[j].1[i]));
            } else {
                assert(w[j].1[i] == a.tables[j].1[i]);
                assert(w[j].0 == a.tables[j].0);
                assert(introduced_in(p, a.tables[j].0, a.tables[j].1[i]));
                let k = choose|k: int| 0 <= k < p.len() && introduced_by(#[trigger] p[k], a.tables[j].0, a.tables[j].1[i]);
                assert(evs[k] == p[k]);
            }
        }
    }
}

} // verus!
