use ledb::Pool;

#[test]
fn pool_remembers_and_forgets_storages() {
    let mut pool: Pool<u32> = Pool::new();
    assert_eq!(pool.get("/a"), None);
    pool.put("/a".into(), 1);
    pool.put("/b".into(), 2);
    assert_eq!(pool.get("/a"), Some(&1));
    pool.put("/a".into(), 3);
    assert_eq!(pool.get("/a"), Some(&3));
    let mut paths = pool.lst();
    paths.sort();
    assert_eq!(paths, vec!["/a".to_string(), "/b".to_string()]);
    pool.del("/a");
    assert_eq!(pool.get("/a"), None);
    assert_eq!(pool.get("/b"), Some(&2));
    pool.del("/c");
    assert_eq!(pool.lst(), vec!["/b".to_string()]);
}
