use healthkit_to_sqlite::event::{Element, LoadError, XmlEvent};
use healthkit_to_sqlite::route::{track_coordinates, TrackReader};
use healthkit_to_sqlite::row::{Row, RowAction, RowBuilder};
use healthkit_to_sqlite::schema::{build_schema, Schema, SchemaBuilder};
use healthkit_to_sqlite::sql::{create_table_statement, prepare_insert};
use healthkit_to_sqlite::value::{Scalar, StorageType, Structured, Value};

fn el(name: &str, attrs: &[(&str, &str)]) -> Element {
    Element {
        name: name.to_string(),
        attributes: attrs.iter().map(|(k, v)| (k.to_string(), v.to_string())).collect(),
    }
}

fn start(name: &str, attrs: &[(&str, &str)]) -> XmlEvent {
    XmlEvent::Start(el(name, attrs))
}

fn empty(name: &str, attrs: &[(&str, &str)]) -> XmlEvent {
    XmlEvent::Empty(el(name, attrs))
}

fn end(name: &str) -> XmlEvent {
    XmlEvent::End(name.to_string())
}

fn columns(schema: &Schema, table: &str) -> Vec<(String, StorageType)> {
    let t = schema.tables.iter().find(|t| t.name == table).expect("table");
    t.columns.iter().map(|c| (c.name.clone(), c.ty)).collect()
}

fn workout_document(with_route: bool) -> Vec<XmlEvent> {
    let mut evs = vec![
        XmlEvent::Other,
        start("HealthData", &[("locale", "en_US")]),
        empty("ExportDate", &[("value", "2023-01-01 00:00:00 +0000")]),
        start("Workout", &[("workoutActivityType", "HKWorkoutActivityTypeRunning"), ("duration", "30.5")]),
        empty("MetadataEntry", &[("key", "HKIndoorWorkout"), ("value", "0")]),
        empty("WorkoutEvent", &[("type", "HKWorkoutEventTypePause"), ("duration", "1.5")]),
        empty("WorkoutStatistics", &[("type", "HKQuantityTypeIdentifierDistance"), ("sum", "5.2"), ("unit", "km")]),
    ];
    if with_route {
        evs.push(start("WorkoutRoute", &[("sourceName", "Watch")]));
        evs.push(empty("FileReference", &[("path", "/workout-routes/route_1.gpx")]));
        evs.push(end("WorkoutRoute"));
    }
    evs.push(end("Workout"));
    evs.push(end("HealthData"));
    evs.push(XmlEvent::Eof);
    evs
}

fn run_rows(evs: &[XmlEvent], route: Option<Vec<(String, String)>>) -> (Vec<Row>, Vec<String>) {
    let mut b = RowBuilder::new();
    let mut rows = Vec::new();
    let mut asked = Vec::new();
    for ev in evs {
        match b.feed(ev).expect("row pass") {
            RowAction::Nothing => {}
            RowAction::Insert(r) => rows.push(r),
            RowAction::ResolveRoute(p) => {
                asked.push(p);
                b.attach_route(route.clone().expect("route"));
            }
        }
    }
    (rows, asked)
}

#[test]
fn schema_collects_tables_and_first_seen_types() {
    let evs = vec![
        start("HealthData", &[]),
        empty("Record", &[("type", "HeartRate"), ("value", "72"), ("unit", "count/min")]),
        start("Record", &[("type", "HeartRate"), ("value", "72.5"), ("startDate", "2020-01-02 03:04:05 +0100")]),
        empty("MetadataEntry", &[("key", "Motion"), ("value", "2")]),
        end("Record"),
        empty("ActivitySummary", &[("dateComponents", "2020-01-02"), ("activeEnergyBurned", "0")]),
        end("HealthData"),
        XmlEvent::Eof,
    ];
    let schema = build_schema(&evs).expect("schema");
    assert_eq!(schema.tables.len(), 2);
    assert_eq!(
        columns(&schema, "HeartRate"),
        vec![
            ("type".to_string(), StorageType::Text),
            ("value".to_string(), StorageType::Integer),
            ("unit".to_string(), StorageType::Text),
            ("startDate".to_string(), StorageType::Timestamp),
            ("metadata_Motion".to_string(), StorageType::Integer),
        ]
    );
    assert_eq!(
        columns(&schema, "ActivitySummary"),
        vec![
            ("dateComponents".to_string(), StorageType::Date),
            ("activeEnergyBurned".to_string(), StorageType::Integer),
        ]
    );
}

#[test]
fn events_before_the_health_data_element_are_ignored() {
    let evs = vec![
        empty("Record", &[("type", "Early"), ("value", "1")]),
        start("HealthData", &[]),
        XmlEvent::Eof,
        empty("Record", &[("type", "Late"), ("value", "1")]),
    ];
    let schema = build_schema(&evs).expect("schema");
    assert!(schema.tables.is_empty());
}

#[test]
fn schema_pass_is_deterministic() {
    let evs = workout_document(true);
    let a = build_schema(&evs).expect("schema");
    let b = build_schema(&evs).expect("schema");
    let sa: Vec<String> = a.tables.iter().map(create_table_statement).collect();
    let sb: Vec<String> = b.tables.iter().map(create_table_statement).collect();
    assert_eq!(sa, sb);
}

#[test]
fn workout_schema_folds_children_into_columns() {
    let schema = build_schema(&workout_document(true)).expect("schema");
    assert_eq!(
        columns(&schema, "Workout"),
        vec![
            ("workoutActivityType".to_string(), StorageType::Text),
            ("duration".to_string(), StorageType::Real),
            ("metadata_HKIndoorWorkout".to_string(), StorageType::Integer),
            ("workoutEvents".to_string(), StorageType::Structured),
            ("workoutStatistics".to_string(), StorageType::Structured),
            ("geometry".to_string(), StorageType::Structured),
        ]
    );
    assert_eq!(
        create_table_statement(&schema.tables[0]),
        "CREATE TABLE IF NOT EXISTS `Workout` (`workoutActivityType` TEXT, `duration` REAL, \
         `metadata_HKIndoorWorkout` INTEGER, `workoutEvents` JSON, `workoutStatistics` JSON, \
         `geometry` JSON);"
    );
}

#[test]
fn record_without_kind_fails_the_schema_pass() {
    let evs = vec![
        start("HealthData", &[]),
        empty("Record", &[("type", "StepCount"), ("value", "10")]),
        empty("Record", &[("value", "10")]),
        XmlEvent::Eof,
    ];
    assert!(matches!(build_schema(&evs), Err(LoadError::MissingKind)));
    let evs = vec![start("HealthData", &[]), start("Record", &[("type", "")]), XmlEvent::Eof];
    assert!(matches!(build_schema(&evs), Err(LoadError::MissingKind)));
    let mut b = SchemaBuilder::new();
    assert!(b.feed(&start("HealthData", &[])).is_ok());
    assert_eq!(b.feed(&empty("Record", &[("unit", "km")])), Err(LoadError::MissingKind));
    assert!(b.finish().tables.is_empty());
}

#[test]
fn first_sight_fixes_type_and_mismatch_fails_binding() {
    let evs = vec![
        start("HealthData", &[]),
        empty("Record", &[("type", "Kind"), ("value", "5")]),
        empty("Record", &[("type", "Kind"), ("value", "five")]),
        end("HealthData"),
        XmlEvent::Eof,
    ];
    let schema = build_schema(&evs).expect("schema");
    assert_eq!(
        columns(&schema, "Kind"),
        vec![("type".to_string(), StorageType::Text), ("value".to_string(), StorageType::Integer)]
    );
    let (rows, _) = run_rows(&evs, None);
    assert_eq!(rows.len(), 2);
    assert_eq!(
        prepare_insert(&schema, &rows[0]).expect("first row binds"),
        "INSERT INTO `Kind` (`type`, `value`) VALUES (?, ?)"
    );
    assert_eq!(prepare_insert(&schema, &rows[1]), Err(LoadError::TypeMismatch));
}

#[test]
fn rows_with_unseen_columns_or_tables_are_refused() {
    let schema_evs = vec![start("HealthData", &[]), empty("Record", &[("type", "A"), ("x", "1")]), XmlEvent::Eof];
    let schema = build_schema(&schema_evs).expect("schema");
    let row_evs = vec![
        start("HealthData", &[]),
        empty("Record", &[("type", "A"), ("y", "1")]),
        empty("Record", &[("type", "B")]),
        empty("Record", &[("type", "A"), ("x", "2.5")]),
        XmlEvent::Eof,
    ];
    let (rows, _) = run_rows(&row_evs, None);
    assert_eq!(prepare_insert(&schema, &rows[0]), Err(LoadError::UnknownColumn));
    assert_eq!(prepare_insert(&schema, &rows[1]), Err(LoadError::UnknownTable));
    assert_eq!(prepare_insert(&schema, &rows[2]), Err(LoadError::TypeMismatch));
}

#[test]
fn workout_row_carries_events_statistics_and_route() {
    let evs = workout_document(true);
    let coords = vec![("13.4".to_string(), "52.5".to_string()), ("13.5".to_string(), "52.6".to_string())];
    let (rows, asked) = run_rows(&evs, Some(coords));
    assert_eq!(asked, vec!["apple_health_export/workout-routes/route_1.gpx".to_string()]);
    assert_eq!(rows.len(), 1);
    let row = &rows[0];
    assert_eq!(row.table, "Workout");
    let names: Vec<&str> = row.cells.iter().map(|c| c.0.as_str()).collect();
    assert_eq!(
        names,
        vec!["workoutActivityType", "duration", "metadata_HKIndoorWorkout", "workoutEvents", "workoutStatistics", "geometry"]
    );
    assert!(matches!(row.cells[1].1, Value::Real(ref t) if t == "30.5"));
    assert!(matches!(row.cells[2].1, Value::Integer(0)));
    match &row.cells[3].1 {
        Value::Structured(Structured::Events(evs)) => {
            assert_eq!(evs.len(), 1);
            assert_eq!(evs[0][0].0, "type");
            assert!(matches!(evs[0][0].1, Scalar::Text(ref t) if t == "HKWorkoutEventTypePause"));
            assert!(matches!(evs[0][1].1, Scalar::Number(ref t) if t == "1.5"));
        }
        _ => panic!("events"),
    }
    match &row.cells[4].1 {
        Value::Structured(Structured::Statistics(s)) => {
            assert_eq!(s.len(), 1);
            assert_eq!(s[0].0, "HKQuantityTypeIdentifierDistance");
            assert_eq!(s[0].1.len(), 3);
        }
        _ => panic!("statistics"),
    }
    match &row.cells[5].1 {
        Value::Structured(Structured::Route(Some(c))) => {
            assert_eq!(c, &vec![("13.4".to_string(), "52.5".to_string()), ("13.5".to_string(), "52.6".to_string())]);
        }
        _ => panic!("route"),
    }
    let schema = build_schema(&evs).expect("schema");
    assert!(prepare_insert(&schema, row).is_ok());
}

#[test]
fn workout_without_route_has_empty_geometry() {
    let evs = workout_document(false);
    let (rows, asked) = run_rows(&evs, None);
    assert!(asked.is_empty());
    assert_eq!(rows.len(), 1);
    let last = rows[0].cells.last().expect("cells");
    assert_eq!(last.0, "geometry");
    assert!(matches!(last.1, Value::Structured(Structured::Route(None))));
}

#[test]
fn workout_statistics_without_kind_fail_the_row_pass() {
    let mut b = RowBuilder::new();
    assert!(b.feed(&start("HealthData", &[])).is_ok());
    assert!(b.feed(&start("Workout", &[("duration", "1")])).is_ok());
    assert!(matches!(b.feed(&empty("WorkoutStatistics", &[("sum", "1")])), Err(LoadError::MissingKind)));
}

#[test]
fn repeated_statistics_kind_replaces_the_earlier_entry() {
    let evs = vec![
        start("HealthData", &[]),
        start("Workout", &[]),
        empty("WorkoutStatistics", &[("type", "Energy"), ("sum", "1")]),
        empty("WorkoutStatistics", &[("type", "Energy"), ("sum", "2")]),
        end("Workout"),
        XmlEvent::Eof,
    ];
    let (rows, _) = run_rows(&evs, None);
    match &rows[0].cells[1].1 {
        Value::Structured(Structured::Statistics(s)) => {
            assert_eq!(s.len(), 1);
            assert!(matches!(s[0].1[1].1, Scalar::Number(ref t) if t == "2"));
        }
        _ => panic!("statistics"),
    }
}

#[test]
fn record_with_metadata_child_yields_one_row() {
    let evs = vec![
        start("HealthData", &[]),
        start("Record", &[("type", "Steps"), ("value", "10")]),
        empty("MetadataEntry", &[("key", "k"), ("value", "v")]),
        end("Record"),
        XmlEvent::Eof,
    ];
    let (rows, _) = run_rows(&evs, None);
    assert_eq!(rows.len(), 1);
    assert_eq!(rows[0].table, "Steps");
    assert_eq!(rows[0].cells.len(), 3);
    assert_eq!(rows[0].cells[2].0, "metadata_k");
}

fn row_pass_error(evs: &[XmlEvent]) -> Option<LoadError> {
    let mut b = RowBuilder::new();
    for ev in evs {
        match b.feed(ev) {
            Err(e) => return Some(e),
            Ok(RowAction::ResolveRoute(_)) => b.attach_route(Vec::new()),
            Ok(_) => {}
        }
    }
    None
}

#[test]
fn document_cut_off_inside_an_element_is_refused() {
    let record = vec![
        start("HealthData", &[]),
        start("Record", &[("type", "Steps"), ("value", "10")]),
        XmlEvent::Eof,
    ];
    assert_eq!(row_pass_error(&record), Some(LoadError::Truncated));
    assert!(matches!(build_schema(&record), Err(LoadError::Truncated)));
    let workout = vec![start("HealthData", &[]), start("Workout", &[("duration", "1")]), XmlEvent::Eof];
    assert_eq!(row_pass_error(&workout), Some(LoadError::Truncated));
    assert!(matches!(build_schema(&workout), Err(LoadError::Truncated)));
    let route = vec![
        start("HealthData", &[]),
        start("Workout", &[("duration", "1")]),
        start("WorkoutRoute", &[]),
        empty("FileReference", &[("path", "/r.gpx")]),
        XmlEvent::Eof,
    ];
    assert_eq!(row_pass_error(&route), Some(LoadError::Truncated));
    assert!(matches!(build_schema(&route), Err(LoadError::Truncated)));
    assert_eq!(row_pass_error(&workout_document(true)), None);
}

#[test]
fn value_of_another_type_than_its_column_is_refused() {
    let evs = vec![
        start("HealthData", &[]),
        empty("Record", &[("type", "K"), ("n", "1.5"), ("d", "2020-01-02"), ("t", "x")]),
        empty("Record", &[("type", "K"), ("n", "1")]),
        empty("Record", &[("type", "K"), ("d", "2020-01-02 03:04:05 +0000")]),
        empty("Record", &[("type", "K"), ("t", "7")]),
        empty("Record", &[("type", "K"), ("n", "2.5"), ("d", "2021-02-03"), ("t", "y")]),
        end("HealthData"),
        XmlEvent::Eof,
    ];
    let schema = build_schema(&evs).expect("schema");
    let (rows, _) = run_rows(&evs, None);
    assert_eq!(prepare_insert(&schema, &rows[1]), Err(LoadError::TypeMismatch));
    assert_eq!(prepare_insert(&schema, &rows[2]), Err(LoadError::TypeMismatch));
    assert_eq!(prepare_insert(&schema, &rows[3]), Err(LoadError::TypeMismatch));
    assert!(prepare_insert(&schema, &rows[4]).is_ok());
}

#[test]
fn track_yields_one_pair_per_point_in_order() {
    let evs = vec![
        XmlEvent::Other,
        start("gpx", &[]),
        start("trkpt", &[("lat", "52.1"), ("lon", "13.1")]),
        end("trkpt"),
        start("trkpt", &[("lon", "13.2"), ("lat", "52.2")]),
        end("trkpt"),
        empty("trkpt", &[("lat", "1"), ("lon", "1")]),
        start("trkpt", &[("lat", "-52.3"), ("lon", "1e1")]),
        XmlEvent::Eof,
    ];
    let c = track_coordinates(&evs).expect("track");
    assert_eq!(
        c,
        vec![
            ("13.1".to_string(), "52.1".to_string()),
            ("13.2".to_string(), "52.2".to_string()),
            ("1e1".to_string(), "-52.3".to_string()),
        ]
    );
    assert!(track_coordinates(&vec![XmlEvent::Eof]).expect("empty").is_empty());
}

#[test]
fn track_point_with_bad_coordinate_fails() {
    let evs = vec![start("trkpt", &[("lat", "52.1"), ("lon", "east")])];
    assert_eq!(track_coordinates(&evs), Err(LoadError::BadCoordinate));
    let evs = vec![start("trkpt", &[("lat", "52.1")])];
    assert_eq!(track_coordinates(&evs), Err(LoadError::BadCoordinate));
    let mut t = TrackReader::new();
    assert!(t.feed(&start("trkpt", &[("lat", "1"), ("lon", "2")])).is_ok());
    assert!(t.feed(&start("trkpt", &[("lat", "x"), ("lon", "2")])).is_err());
    assert_eq!(t.finish(), vec![("2".to_string(), "1".to_string())]);
}
