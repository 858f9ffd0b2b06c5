//! The shared file-name index: a map from lower-cased file name to the one
//! parent directory it was seen under, or to an ambiguity marker once it has
//! been seen under two different parents.
//!
//! The map itself is a `dashmap::DashMap`, so the surrounding program can
//! share the finished index across threads; its contents are named by
//! `index_entries`, and every access goes through the contracts below.

use vstd::prelude::*;

verus! {

/// State of one indexed file name: a unique parent directory, or the mark
/// that several different parents were seen.
#[derive(Debug, Clone, PartialEq, Eq)]
pub enum IndexedPath {
    /// The single parent directory the file name was found under.
    Unique(String),
    /// The file name was found under two or more distinct parents.
    Ambiguous,
}

impl View for IndexedPath {
    type V = Option<Seq<char>>;

    open spec fn view(&self) -> Option<Seq<char>> {
        match self {
            IndexedPath::Unique(p) => Some(p@),
            IndexedPath::Ambiguous => None,
        }
    }
}

impl IndexedPath {
    /// An entry recording a unique parent directory.
    pub fn unique(path: String) -> (r: IndexedPath)
        ensures
            r@ == Some(path@),
    {
        IndexedPath::Unique(path)
    }

    /// Marks the entry as conflicting: lookups yield nothing from now on.
    pub fn mark_conflict(&mut self)
        ensures
            final(self)@ is None,
    {
        *self = IndexedPath::Ambiguous;
    }

    /// The parent directory, when the entry is still unique.
    pub fn parent(&self) -> (r: Option<&String>)
        ensures
            match r {
                Some(p) => self@ == Some(p@),
                None => self@ is None,
            },
    {
        match self {
            IndexedPath::Unique(path) => Some(path),
            IndexedPath::Ambiguous => None,
        }
    }
}

/// The file-name index.  The field is a concurrent map of an outside crate;
/// nothing is assumed of it beyond the contracts of the methods below.
#[verifier::external_body]
pub struct FileIndex {
    map: dashmap::DashMap<String, IndexedPath>,
}

/// What the index holds: for each known file name, `Some(directory)` while
/// the name is unique, `None` once it is ambiguous.
pub uninterp spec fn index_entries(index: FileIndex) -> Map<Seq<char>, Option<Seq<char>>>;

/// The empty index contents.
pub open spec fn no_entries() -> Map<Seq<char>, Option<Seq<char>>> {
    Map::empty()
}

/// What recording one (file name, parent) sighting leaves in that name's
/// entry: a first sighting stores the parent, a repeat of the same parent
/// changes nothing, and any other case leaves the entry ambiguous.
pub open spec fn recorded_entry(
    m: Map<Seq<char>, Option<Seq<char>>>,
    name: Seq<char>,
    parent: Seq<char>,
) -> Option<Seq<char>> {
    if !m.contains_key(name) {
        Some(parent)
    } else if m[name] == Some(parent) {
        Some(parent)
    } else {
        None
    }
}

/// The index contents after one recorded sighting.
pub open spec fn record_step(
    m: Map<Seq<char>, Option<Seq<char>>>,
    name: Seq<char>,
    parent: Seq<char>,
) -> Map<Seq<char>, Option<Seq<char>>> {
    m.insert(name, recorded_entry(m, name, parent))
}

impl FileIndex {
    /// Relies on `dashmap::DashMap::new`: it creates an empty map.
    #[verifier::external_body]
    pub fn new() -> (r: FileIndex)
        ensures
            index_entries(r) == no_entries(),
    {
        FileIndex { map: dashmap::DashMap::new() }
    }

    /// Relies on `dashmap::DashMap::get`: it returns the value stored under
    /// the key when the key is present, and nothing otherwise.
    #[verifier::external_body]
    fn get_entry(&self, file_name: &String) -> (r: Option<IndexedPath>)
        ensures
            match r {
                Some(entry) => index_entries(*self).contains_key(file_name@) && index_entries(
                    *self,
                )[file_name@] == entry@,
                None => !index_entries(*self).contains_key(file_name@),
            },
    {
        self.map.get(file_name).map(|entry| entry.value().clone())
    }

    /// Relies on `dashmap::DashMap::insert`: it maps the key to the new
    /// value, replacing what the key was mapped to before.
    #[verifier::external_body]
    fn put_entry(&mut self, file_name: String, entry: IndexedPath)
        ensures
            index_entries(*final(self)) == index_entries(*old(self)).insert(file_name@, entry@),
    {
        self.map.insert(file_name, entry);
    }

    /// Relies on `dashmap::DashMap::len`: the number of keys in the map.
    #[verifier::external_body]
    pub fn len(&self) -> (n: usize)
        ensures
            n == index_entries(*self).dom().len(),
    {
        self.map.len()
    }

    /// Records one sighting of `file_name` under `parent`.
    ///
    /// A name seen before under a different parent becomes ambiguous and
    /// never reverts; a repeat sighting of the same parent changes nothing.
    pub fn record(&mut self, file_name: String, parent: String)
        ensures
            index_entries(*final(self)) == record_step(
                index_entries(*old(self)),
                file_name@,
                parent@,
            ),
    {
        let existing = self.get_entry(&file_name);
        match existing {
            None => {
                self.put_entry(file_name, IndexedPath::Unique(parent));
            },
            Some(entry) => {
                match entry {
                    IndexedPath::Unique(p) => {
                        if p == parent {
                            proof {
                                assert(index_entries(*self).insert(
                                    file_name@,
                                    Some(parent@),
                                ) =~= index_entries(*self));
                            }
                        } else {
                            self.put_entry(file_name, IndexedPath::Ambiguous);
                        }
                    },
                    IndexedPath::Ambiguous => {
                        self.put_entry(file_name, IndexedPath::Ambiguous);
                    },
                }
            },
        }
    }

    /// Directory lookup: only a name that is present and still unique
    /// yields a directory.
    pub fn lookup(&self, file_name: &String) -> (r: Option<String>)
        ensures
            match r {
                Some(d) => index_entries(*self).contains_key(file_name@) && index_entries(
                    *self,
                )[file_name@] == Some(d@),
                None => !index_entries(*self).contains_key(file_name@) || index_entries(
                    *self,
                )[file_name@] is None,
            },
    {
        match self.get_entry(file_name) {
            Some(entry) => {
                match entry {
                    IndexedPath::Unique(p) => Some(p),
                    IndexedPath::Ambiguous => None,
                }
            },
            None => None,
        }
    }
}

/// Law: two sightings of one name under different parents leave the entry
/// ambiguous, whichever sighting came first.
pub proof fn lemma_conflict_is_ambiguous(
    m: Map<Seq<char>, Option<Seq<char>>>,
    name: Seq<char>,
    p1: Seq<char>,
    p2: Seq<char>,
)
    requires
        p1 != p2,
    ensures
        recorded_entry(m.insert(name, recorded_entry(m, name, p1)), name, p2) is None,
{
}

/// Law: the entry a name holds after two sightings does not depend on their
/// order.
pub proof fn lemma_record_commutes(
    m: Map<Seq<char>, Option<Seq<char>>>,
    name: Seq<char>,
    p1: Seq<char>,
    p2: Seq<char>,
)
    ensures
        recorded_entry(m.insert(name, recorded_entry(m, name, p1)), name, p2) == recorded_entry(
            m.insert(name, recorded_entry(m, name, p2)),
            name,
            p1,
        ),
{
}

/// Law: the index two sightings build does not depend on their order,
/// whether they are of the same file name or of different ones.
pub proof fn lemma_record_step_commutes(
    m: Map<Seq<char>, Option<Seq<char>>>,
    n1: Seq<char>,
    p1: Seq<char>,
    n2: Seq<char>,
    p2: Seq<char>,
)
    ensures
        record_step(record_step(m, n1, p1), n2, p2) == record_step(
            record_step(m, n2, p2),
            n1,
            p1,
        ),
{
    if n1 == n2 {
        lemma_record_commutes(m, n1, p1, p2);
        assert(record_step(record_step(m, n1, p1), n2, p2) =~= record_step(
            record_step(m, n2, p2),
            n1,
            p1,
        ));
    } else {
        assert(recorded_entry(m.insert(n1, recorded_entry(m, n1, p1)), n2, p2) == recorded_entry(
            m,
            n2,
            p2,
        ));
        assert(recorded_entry(m.insert(n2, recorded_entry(m, n2, p2)), n1, p1) == recorded_entry(
            m,
            n1,
            p1,
        ));
        assert(record_step(record_step(m, n1, p1), n2, p2) =~= record_step(
            record_step(m, n2, p2),
            n1,
            p1,
        ));
    }
}

/// Law: an ambiguous entry never reverts, whatever is sighted later.
pub proof fn lemma_ambiguous_is_final(
    m: Map<Seq<char>, Option<Seq<char>>>,
    name: Seq<char>,
    parent: Seq<char>,
)
    requires
        m.contains_key(name),
        m[name] is None,
    ensures
        recorded_entry(m, name, parent) is None,
{
}

} // verus!
