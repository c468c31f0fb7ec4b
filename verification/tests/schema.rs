use plancore::arena::Arena;
use plancore::arena::Node;
use plancore::dtype::DataType;
use plancore::error::ErrorKind;
use plancore::error::PlanError;
use plancore::schema::Field;
use plancore::schema::Schema;

fn schema_of(cols: &[(&str, DataType)]) -> Schema {
    let mut s = Schema::new();
    for (name, dtype) in cols {
        s.with_column(name.to_string(), dtype.clone());
    }
    s
}

fn names(s: &Schema) -> Vec<String> {
    s.to_fields().into_iter().map(|f| f.name).collect()
}

#[test]
fn new_schema_has_no_columns() {
    let s = Schema::new();
    assert_eq!(s.len(), 0);
    assert!(s.is_empty());
    assert!(!s.contains("a"));
    assert_eq!(s.get("a"), None);
    assert_eq!(Schema::default(), s);
}

#[test]
fn with_column_appends_new_names_in_order() {
    let mut s = Schema::new();
    assert_eq!(s.with_column("a".to_string(), DataType::Int64), None);
    assert_eq!(s.with_column("b".to_string(), DataType::Float64), None);
    assert_eq!(s.with_column("c".to_string(), DataType::String), None);
    assert_eq!(s.len(), 3);
    assert_eq!(names(&s), vec!["a", "b", "c"]);
    assert_eq!(s.get("b"), Some(&DataType::Float64));
    assert_eq!(s.get_at_index(2).name, "c");
    assert_eq!(s.get_at_index(2).dtype, DataType::String);
}

#[test]
fn with_column_overwrites_the_type_in_place() {
    let mut s = schema_of(&[("a", DataType::Int64), ("b", DataType::Float64)]);
    assert_eq!(s.with_column("a".to_string(), DataType::Boolean), Some(DataType::Int64));
    assert_eq!(s.len(), 2);
    assert_eq!(names(&s), vec!["a", "b"]);
    assert_eq!(s.get("a"), Some(&DataType::Boolean));
}

#[test]
fn merge_keeps_first_seen_order() {
    let mut s = schema_of(&[("a", DataType::Int64), ("b", DataType::Float64)]);
    let other = schema_of(&[("c", DataType::String), ("a", DataType::UInt8), ("d", DataType::Date)]);
    s.merge(other);
    assert_eq!(
        s,
        schema_of(&[
            ("a", DataType::UInt8),
            ("b", DataType::Float64),
            ("c", DataType::String),
            ("d", DataType::Date),
        ])
    );
}

#[test]
fn remove_takes_out_one_column() {
    let mut s = schema_of(&[("a", DataType::Int64), ("b", DataType::Float64), ("c", DataType::String)]);
    assert_eq!(s.remove("b"), Some(DataType::Float64));
    assert_eq!(names(&s), vec!["a", "c"]);
    assert_eq!(s.remove("z"), None);
    assert_eq!(names(&s), vec!["a", "c"]);
}

#[test]
fn insert_first_moves_an_existing_name_to_the_front() {
    let mut s = schema_of(&[("a", DataType::Int64), ("b", DataType::Float64)]);
    s.insert_first("idx".to_string(), DataType::UInt32);
    assert_eq!(names(&s), vec!["idx", "a", "b"]);
    s.insert_first("b".to_string(), DataType::UInt32);
    assert_eq!(
        s,
        schema_of(&[("b", DataType::UInt32), ("idx", DataType::UInt32), ("a", DataType::Int64)])
    );
}

#[test]
fn from_fields_keeps_one_column_for_a_name_given_twice() {
    let s = Schema::from_fields(vec![
        Field::new("a".to_string(), DataType::Int64),
        Field::new("b".to_string(), DataType::Int8),
        Field::new("a".to_string(), DataType::String),
    ]);
    assert_eq!(s, schema_of(&[("a", DataType::String), ("b", DataType::Int8)]));
}

#[test]
fn try_get_names_the_missing_column() {
    let s = schema_of(&[("a", DataType::Int64)]);
    assert_eq!(s.try_get("a").unwrap(), &DataType::Int64);
    let e: PlanError = s.try_get("zz").unwrap_err();
    assert_eq!(e.kind(), ErrorKind::ColumnNotFound);
    assert_eq!(e.subject, "zz");
    assert!(e.context.is_empty());
}

#[test]
fn schemas_compare_by_columns_in_order() {
    let ab = schema_of(&[("a", DataType::Int64), ("b", DataType::Int64)]);
    let ba = schema_of(&[("b", DataType::Int64), ("a", DataType::Int64)]);
    assert_eq!(ab, ab.clone());
    assert_ne!(ab, ba);
    assert_ne!(ab, schema_of(&[("a", DataType::Int64)]));
    assert_ne!(ab, schema_of(&[("a", DataType::Int64), ("b", DataType::Int32)]));
}

#[test]
fn data_types_compare_and_clone_through_lists() {
    let inner = DataType::List(Box::new(DataType::Int32));
    let outer = DataType::List(Box::new(inner.clone()));
    assert_eq!(outer.clone(), outer);
    assert_ne!(outer, inner);
    assert_ne!(DataType::List(Box::new(DataType::Int64)), inner);
    assert_ne!(DataType::Float32, DataType::Float64);
}

#[test]
fn error_context_collects_notes_oldest_first() {
    let e = PlanError::new(ErrorKind::Duplicate, "x".to_string());
    let e = e.context("first".to_string()).context("second".to_string());
    assert_eq!(e.kind, ErrorKind::Duplicate);
    assert_eq!(e.subject, "x");
    assert_eq!(e.context, vec!["first", "second"]);
}

#[test]
fn arena_hands_out_handles_in_order() {
    let mut a: Arena<u32> = Arena::new();
    assert!(a.is_empty());
    assert_eq!(a.last_node(), None);
    assert_eq!(a.add(10), Node(0));
    assert_eq!(a.add(20), Node(1));
    assert_eq!(a.add(30), Node(2));
    assert_eq!(a.len(), 3);
    assert_eq!(*a.get(Node(1)), 20);
    assert_eq!(a.last_node(), Some(Node(2)));
}

#[test]
fn arena_pop_removes_the_last_slot_only() {
    let mut a: Arena<u32> = Arena::with_capacity(4);
    a.add(10);
    a.add(20);
    assert_eq!(a.pop(), Some(20));
    assert_eq!(a.len(), 1);
    assert_eq!(*a.get(Node(0)), 10);
    assert_eq!(a.pop(), Some(10));
    assert_eq!(a.pop(), None);
    assert!(Arena::<u32>::default().is_empty());
}

#[test]
fn arena_take_leaves_the_default_in_the_slot() {
    let mut a: Arena<u32> = Arena::new();
    a.add(10);
    a.add(20);
    a.add(30);
    assert_eq!(a.take(Node(1)), 20);
    assert_eq!(a.len(), 3);
    assert_eq!(*a.get(Node(0)), 10);
    assert_eq!(*a.get(Node(1)), 0);
    assert_eq!(*a.get(Node(2)), 30);
    assert_eq!(a.replace(Node(2), 33), 30);
    assert_eq!(*a.get(Node(2)), 33);
    assert_eq!(a.len(), 3);
}

#[test]
fn arena_get_mut_writes_into_the_slot() {
    let mut a: Arena<u32> = Arena::new();
    a.add(10);
    a.add(20);
    *a.get_mut(Node(0)) += 1;
    assert_eq!(*a.get(Node(0)), 11);
    assert_eq!(*a.get(Node(1)), 20);
    assert_eq!(a.len(), 2);
}
