use vstd::prelude::*;

use crate::collection::CollectionDef;
use crate::enumerate::Serial;
use crate::index::IndexDef;


verus! {

/// The definition of a database of the storage: a collection or an index
#[derive(Debug, Clone, PartialEq, Eq)]
pub enum DatabaseDef {
    Collection(CollectionDef),
    Index(IndexDef),
}

impl DatabaseDef {
    /// The serial number of the definition
    pub open spec fn spec_serial(&self) -> Serial {
        match self {
            DatabaseDef::Collection(c) => c.0,
            DatabaseDef::Index(i) => i.0,
        }
    }
}

/// The position of the collection named `name` among the definitions
pub open spec fn def_position(defs: Seq<(CollectionDef, Vec<IndexDef>)>, name: Seq<char>) -> Option<int> {
    if exists|i: int| 0 <= i < defs.len() && #[trigger] defs[i].0.1@ == name {
        Some(choose|i: int| 0 <= i < defs.len() && #[trigger] defs[i].0.1@ == name)
    } else {
        None
    }
}

/// The collection and index definitions found in a storage, grouped by
/// collection, and the greatest serial number among them
#[derive(Debug)]
pub struct Definitions {
    pub last_serial: Serial,
    pub defs: Vec<(CollectionDef, Vec<IndexDef>)>,
}

impl Definitions {
    /// No two groups are of collections with one name
    pub open spec fn wf(&self) -> bool {
        forall|i: int, j: int| 0 <= i < j < self.defs@.len() ==> self.defs@[i].0.1@ != self.defs@[j].0.1@
    }

    /// No definitions yet
    pub fn new() -> (d: Self)
        ensures
            d.wf(),
            d.last_serial == 0,
            d.defs@.len() == 0,
    {
        Definitions { last_serial: 0, defs: Vec::new() }
    }

    /// The group of the collection named `name`
    fn position(&self, name: &String) -> (r: Option<usize>)
        requires
            self.wf(),
        ensures
            r is None <==> def_position(self.defs@, name@) is None,
            r matches Some(i) ==> i < self.defs@.len() && def_position(self.defs@, name@) == Some(i as int),
    {
        let mut i: usize = 0;
        while i < self.defs.len()
            invariant
                i <= self.defs@.len(),
                self.wf(),
                forall|j: int| 0 <= j < i ==> self.defs@[j].0.1@ != name@,
            decreases self.defs@.len() - i,
        {
            if self.defs[i].0.1.eq(name) {
                proof {
                    let c = choose|j: int| 0 <= j < self.defs@.len() && #[trigger] self.defs@[j].0.1@ == name@;
                    assert(c == i) by {
                        if c < i {
                        } else if c > i {
                            assert(self.defs@[i as int].0.1@ != self.defs@[c].0.1@);
                        }
                    }
                }
                return Some(i);
            }
            i = i + 1;
        }
        None
    }

    /// Take a definition in: a collection's replaces the one of its group (or
    /// starts a group), an index's joins the group of its collection (or starts
    /// one with a collection definition made from the name)
    pub fn add(&mut self, def: DatabaseDef)
        requires
            old(self).wf(),
        ensures
            final(self).wf(),
            final(self).last_serial == (if def.spec_serial() > old(self).last_serial {
                def.spec_serial()
            } else {
                old(self).last_serial
            }),
            def matches DatabaseDef::Collection(c) ==> match def_position(old(self).defs@, c.1@) {
                Some(i) => final(self).defs@ == old(self).defs@.update(i, (c, old(self).defs@[i].1)),
                None => final(self).defs@.len() == old(self).defs@.len() + 1
                    && final(self).defs@.drop_last() == old(self).defs@
                    && final(self).defs@.last().0 == c
                    && final(self).defs@.last().1@.len() == 0,
            },
            def matches DatabaseDef::Index(x) ==> match def_position(old(self).defs@, x.1@) {
                Some(i) => final(self).defs@.len() == old(self).defs@.len()
                    && (forall|j: int| 0 <= j < old(self).defs@.len() && j != i ==> #[trigger] final(self).defs@[j] == old(self).defs@[j])
                    && final(self).defs@[i].0 == old(self).defs@[i].0
                    && final(self).defs@[i].1@ == old(self).defs@[i].1@.push(x),
                None => final(self).defs@.len() == old(self).defs@.len() + 1
                    && final(self).defs@.drop_last() == old(self).defs@
                    && final(self).defs@.last().0.0 == 0
                    && final(self).defs@.last().0.1@ == x.1@
                    && final(self).defs@.last().1@ == seq![x],
            },
    {
        let serial = match &def {
            DatabaseDef::Collection(c) => c.0,
            DatabaseDef::Index(x) => x.0,
        };
        if serial > self.last_serial {
            self.last_serial = serial;
        }
        let ghost before = self.defs@;
        match def {
            DatabaseDef::Collection(c) => match self.position(&c.1) {
                Some(i) => {
                    let (_old_def, indexes) = self.defs.remove(i);
                    self.defs.insert(i, (c, indexes));
                    proof {
                        assert(self.defs@ =~= before.update(i as int, (c, before[i as int].1)));
                        assert forall|a: int, b: int| 0 <= a < b < self.defs@.len() implies self.defs@[a].0.1@ != self.defs@[b].0.1@ by {
                            assert(before[a].0.1@ != before[b].0.1@);
                        }
                    }
                },
                None => {
                    self.defs.push((c, Vec::new()));
                    proof {
                        assert(self.defs@.drop_last() =~= before);
                        assert forall|a: int, b: int| 0 <= a < b < self.defs@.len() implies self.defs@[a].0.1@ != self.defs@[b].0.1@ by {
                            if b == before.len() {
                                assert(before[a].0.1@ != c.1@);
                            }
                        }
                    }
                },
            },
            DatabaseDef::Index(x) => match self.position(&x.1) {
                Some(i) => {
                    let (cd, indexes) = self.defs.remove(i);
                    let mut indexes = indexes;
                    indexes.push(x);
                    self.defs.insert(i, (cd, indexes));
                    proof {
                        assert forall|j: int| 0 <= j < before.len() && j != i implies #[trigger] self.defs@[j] == before[j] by {}
                        assert forall|a: int, b: int| 0 <= a < b < self.defs@.len() implies self.defs@[a].0.1@ != self.defs@[b].0.1@ by {
                            assert(before[a].0.1@ != before[b].0.1@);
                        }
                    }
                },
                None => {
                    let cd = CollectionDef(0, x.1.clone());
                    let mut indexes: Vec<IndexDef> = Vec::new();
                    indexes.push(x);
                    self.defs.push((cd, indexes));
                    proof {
                        assert(self.defs@.drop_last() =~= before);
                        assert forall|a: int, b: int| 0 <= a < b < self.defs@.len() implies self.defs@[a].0.1@ != self.defs@[b].0.1@ by {
                            if b == before.len() {
                                assert(before[a].0.1@ != x.1@);
                            }
                        }
                    }
                },
            },
        }
    }
}

/// Storage stats data
#[derive(Debug, Clone, PartialEq, Eq)]
pub struct Stats {
    pub page_size: u32,
    pub btree_depth: u32,
    pub branch_pages: usize,
    pub leaf_pages: usize,
    pub overflow_pages: usize,
    pub data_entries: usize,
}

/// Storage info data
#[derive(Debug, Clone, PartialEq, Eq)]
pub struct Info {
    pub map_size: usize,
    pub last_page: usize,
    pub last_transaction: usize,
    pub max_readers: u32,
    pub num_readers: u32,
}

/// The environment flags that the storage sets or clears
#[derive(Debug, Clone, Copy, PartialEq, Eq, Structural)]
pub struct EnvFlags {
    pub map_async: bool,
    pub no_lock: bool,
    pub no_mem_init: bool,
    pub no_meta_sync: bool,
    pub no_read_ahead: bool,
    pub no_sub_dir: bool,
    pub no_sync: bool,
    pub no_tls: bool,
    pub read_only: bool,
    pub write_map: bool,
}

/// Database options
#[derive(Debug, Clone, PartialEq, Eq)]
pub struct Options {
    // options
    pub map_size: Option<usize>,
    pub max_readers: Option<u32>,
    pub max_dbs: Option<u32>,
    // flags
    pub map_async: Option<bool>,
    pub no_lock: Option<bool>,
    pub no_mem_init: Option<bool>,
    pub no_meta_sync: Option<bool>,
    pub no_read_ahead: Option<bool>,
    pub no_sub_dir: Option<bool>,
    pub no_sync: Option<bool>,
    pub no_tls: Option<bool>,
    pub read_only: Option<bool>,
    pub write_map: Option<bool>,
}

/// Whether a flag ends up set: the option is given, it agrees with `onoff`
/// (when that is given), and it is on
pub open spec fn flag_set(option: Option<bool>, onoff: Option<bool>) -> bool {
    match option {
        Some(flag) => (match onoff {
            Some(o) => o == flag,
            None => true,
        }) && flag,
        None => false,
    }
}

/// One flag: set to the option where the option is given and agrees with `onoff`
fn fill_flag(option: Option<bool>, onoff: Option<bool>) -> (r: bool)
    ensures
        r == flag_set(option, onoff),
{
    let mut r = false;
    if let Some(flag) = option {
        let agrees = match onoff {
            Some(o) => o == flag,
            None => true,
        };
        if agrees {
            r = flag;
        }
    }
    r
}

/// Law: asking for the flags to turn off gives none: a flag is only ever set
/// when its option is on
pub proof fn law_off_flags_empty(o: Options)
    ensures
        o.spec_flags(Some(false)) == (EnvFlags {
            map_async: false,
            no_lock: false,
            no_mem_init: false,
            no_meta_sync: false,
            no_read_ahead: false,
            no_sub_dir: false,
            no_sync: false,
            no_tls: false,
            read_only: false,
            write_map: false,
        }),
{
}

/// Law: each flag follows the option of its own name and no other: it is
/// set exactly where that option is on and `onoff` does not ask for the
/// flags that are off
pub proof fn law_flags_follow_their_options(o: Options, onoff: Option<bool>)
    ensures
        ({
            let f = o.spec_flags(onoff);
            let on = |x: Option<bool>| x == Some(true) && onoff != Some(false);
            &&& f.map_async == on(o.map_async)
            &&& f.no_lock == on(o.no_lock)
            &&& f.no_mem_init == on(o.no_mem_init)
            &&& f.no_meta_sync == on(o.no_meta_sync)
            &&& f.no_read_ahead == on(o.no_read_ahead)
            &&& f.no_sub_dir == on(o.no_sub_dir)
            &&& f.no_sync == on(o.no_sync)
            &&& f.no_tls == on(o.no_tls)
            &&& f.read_only == on(o.read_only)
            &&& f.write_map == on(o.write_map)
        }),
{
}

/// Law: options that differ only in whether the storage is read-only give
/// flags that differ at most in `read_only`
pub proof fn law_read_only_touches_only_its_flag(o: Options, p: Options, onoff: Option<bool>)
    requires
        p == (Options { read_only: p.read_only, ..o }),
    ensures
        o.spec_flags(onoff) == (EnvFlags { read_only: o.spec_flags(onoff).read_only, ..p.spec_flags(onoff) }),
{
}

impl Default for Options {
    fn default() -> (o: Self)
        ensures
            o.map_size is None && o.max_readers is None && o.max_dbs is None,
            o.map_async is None && o.no_lock is None && o.no_mem_init is None && o.no_meta_sync is None,
            o.no_read_ahead is None && o.no_sub_dir is None && o.no_sync is None && o.no_tls is None,
            o.read_only is None && o.write_map is None,
    {
        Options {
            map_size: None,
            max_readers: None,
            max_dbs: None,
            map_async: None,
            no_lock: None,
            no_mem_init: None,
            no_meta_sync: None,
            no_read_ahead: None,
            no_sub_dir: None,
            no_sync: None,
            no_tls: None,
            read_only: None,
            write_map: None,
        }
    }
}

impl Options {
    /// The map size, the greatest number of readers and of databases that the
    /// environment is built with: the options where given, else 16 MiB, 126 and 128
    pub fn env_limits(&self) -> (r: (usize, u32, u32))
        ensures
            r.0 == (match self.map_size {
                Some(v) => v,
                None => 16777216usize,
            }),
            r.1 == (match self.max_readers {
                Some(v) => v,
                None => 126u32,
            }),
            r.2 == (match self.max_dbs {
                Some(v) => v,
                None => 128u32,
            }),
    {
        let map_size = match self.map_size {
            Some(v) => v,
            None => 16usize << 20usize,
        };
        assert(16usize << 20usize == 16777216usize) by (bit_vector);
        let max_readers = match self.max_readers {
            Some(v) => v,
            None => 126,
        };
        let max_dbs = match self.max_dbs {
            Some(v) => v,
            None => 128,
        };
        (map_size, max_readers, max_dbs)
    }

    /// The flags to open the environment with
    pub fn open_flags(&self) -> (f: EnvFlags)
        ensures
            f == self.spec_flags(None),
    {
        self.fill_flags(None)
    }

    /// The flags that `fill_flags` gives
    pub open spec fn spec_flags(&self, onoff: Option<bool>) -> EnvFlags {
        EnvFlags {
            map_async: flag_set(self.map_async, onoff),
            no_lock: flag_set(self.no_lock, onoff),
            no_mem_init: flag_set(self.no_mem_init, onoff),
            no_meta_sync: flag_set(self.no_meta_sync, onoff),
            no_read_ahead: flag_set(self.no_read_ahead, onoff),
            no_sub_dir: flag_set(self.no_sub_dir, onoff),
            no_sync: flag_set(self.no_sync, onoff),
            no_tls: flag_set(self.no_tls, onoff),
            read_only: flag_set(self.read_only, onoff),
            write_map: flag_set(self.write_map, onoff),
        }
    }

    /// The flags set by the options: every given option that agrees with
    /// `onoff` (any, where `onoff` is not given) and is on
    pub fn fill_flags(&self, onoff: Option<bool>) -> (f: EnvFlags)
        ensures
            f == self.spec_flags(onoff),
    {
        EnvFlags {
            map_async: fill_flag(self.map_async, onoff),
            no_lock: fill_flag(self.no_lock, onoff),
            no_mem_init: fill_flag(self.no_mem_init, onoff),
            no_meta_sync: fill_flag(self.no_meta_sync, onoff),
            no_read_ahead: fill_flag(self.no_read_ahead, onoff),
            no_sub_dir: fill_flag(self.no_sub_dir, onoff),
            no_sync: fill_flag(self.no_sync, onoff),
            no_tls: fill_flag(self.no_tls, onoff),
            read_only: fill_flag(self.read_only, onoff),
            write_map: fill_flag(self.write_map, onoff),
        }
    }
}

} // verus!
