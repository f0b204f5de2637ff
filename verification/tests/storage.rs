use ledb::{
    index_change, indexes_to_drop, CollectionDef, DatabaseDef, Definitions, EnvFlags, Enumerable, IndexChange, IndexDef, IndexKind,
    KeyField, KeyType, Options, SerialGenerator,
};

#[test]
fn definitions_group_by_collection() {
    let mut d = Definitions::new();
    d.add(DatabaseDef::Index(IndexDef(3, "users".into(), "name".into(), IndexKind::Unique, KeyType::String)));
    d.add(DatabaseDef::Collection(CollectionDef(2, "users".into())));
    d.add(DatabaseDef::Collection(CollectionDef(5, "posts".into())));
    d.add(DatabaseDef::Index(IndexDef(4, "users".into(), "age".into(), IndexKind::Index, KeyType::Int)));
    assert_eq!(d.last_serial, 5);
    assert_eq!(d.defs.len(), 2);
    assert_eq!(d.defs[0].0, CollectionDef(2, "users".into()));
    assert_eq!(
        d.defs[0].1,
        vec![
            IndexDef(3, "users".into(), "name".into(), IndexKind::Unique, KeyType::String),
            IndexDef(4, "users".into(), "age".into(), IndexKind::Index, KeyType::Int),
        ]
    );
    assert_eq!(d.defs[1].0, CollectionDef(5, "posts".into()));
    assert!(d.defs[1].1.is_empty());
}

#[test]
fn index_without_collection_starts_group() {
    let mut d = Definitions::new();
    d.add(DatabaseDef::Index(IndexDef(1, "c".into(), "f".into(), IndexKind::Unique, KeyType::Int)));
    assert_eq!(d.defs[0].0, CollectionDef::new("c"));
    assert_eq!(d.last_serial, 1);
}

#[test]
fn serial_generator_counts() {
    let mut g = SerialGenerator::new();
    assert_eq!(g.gen(), 0);
    assert_eq!(g.gen(), 1);
    g.set(10);
    let def = g.enumerate(CollectionDef::new("x"));
    assert_eq!(def, CollectionDef(10, "x".into()));
    let mut idx = IndexDef::new("x", "f", IndexKind::Unique, KeyType::Bool);
    idx.enumerate(42);
    assert_eq!(idx.0, 42);
    g.set(usize::MAX);
    assert_eq!(g.gen(), usize::MAX);
    assert_eq!(g.gen(), 0);
}

#[test]
fn ensure_index_decision() {
    assert_eq!(index_change(None, IndexKind::Unique, KeyType::Int), IndexChange::Create);
    assert_eq!(index_change(Some((IndexKind::Unique, KeyType::Int)), IndexKind::Unique, KeyType::Int), IndexChange::Keep);
    assert_eq!(
        index_change(Some((IndexKind::Index, KeyType::Int)), IndexKind::Unique, KeyType::Int),
        IndexChange::Replace
    );
}

fn no_flags() -> EnvFlags {
    EnvFlags {
        map_async: false,
        no_lock: false,
        no_mem_init: false,
        no_meta_sync: false,
        no_read_ahead: false,
        no_sub_dir: false,
        no_sync: false,
        no_tls: false,
        read_only: false,
        write_map: false,
    }
}

#[test]
fn option_flags() {
    let mut o = Options::default();
    o.no_sync = Some(true);
    o.no_lock = Some(false);
    o.write_map = Some(true);
    let all = o.open_flags();
    assert_eq!(all, EnvFlags { no_sync: true, write_map: true, ..no_flags() });
    assert_eq!(o.fill_flags(Some(true)), EnvFlags { no_sync: true, write_map: true, ..no_flags() });
    // the flags to turn off come out empty: a flag is only ever set when on
    assert_eq!(o.fill_flags(Some(false)), no_flags());
}

#[test]
fn option_limits() {
    let o = Options::default();
    assert_eq!(o.env_limits(), (16 << 20, 126, 128));
    let mut o = Options::default();
    o.map_size = Some(1 << 30);
    o.max_dbs = Some(7);
    assert_eq!(o.env_limits(), (1 << 30, 126, 7));
}

#[test]
fn setting_indexes_drops_the_unwanted() {
    let current = vec![KeyField::new("a"), KeyField::new("b"), KeyField::new("c")];
    let wanted = vec![KeyField::new("c").with_type(KeyType::Int), KeyField::new("d")];
    assert_eq!(indexes_to_drop(&current, &wanted), vec!["a".to_string(), "b".to_string()]);
    assert!(indexes_to_drop(&current, &current).is_empty());
    assert!(indexes_to_drop(&Vec::new(), &wanted).is_empty());
}
