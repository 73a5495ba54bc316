//! The shared records of the application: shares, static sites and receive
//! cards, and the registry that holds them keyed by their random token.
use vstd::prelude::*;

verus! {

/// What a share points at.
#[derive(Clone, Copy, Debug, PartialEq, Eq, Structural)]
pub enum ShareKind {
    File,
    Folder,
}

/// One shareable resource. Identified by a random opaque token that lives in
/// the URL path (e.g. /s/<id>). Only the `id` is exposed externally; the
/// `path` stays server-side.
#[derive(Clone, Debug)]
pub struct ShareSession {
    pub id: String,
    pub name: String,
    pub path: String,
    pub kind: ShareKind,
    /// bytes for a file; for a folder, the number of its direct entries
    pub size: u64,
    /// bytes of the file, or of the files directly inside the folder
    pub total_bytes: u64,
    pub created_at: i64,
}

/// A static website served from a folder on its own port.
#[derive(Clone, Debug)]
pub struct SiteSession {
    pub id: String,
    pub name: String,
    pub path: String,
    pub size: u64,
    pub total_bytes: u64,
    pub created_at: i64,
    /// Port the dedicated site server is bound to.
    pub port: u16,
}

/// How an upload to a receive card is protected.
#[derive(Clone, Copy, Debug, PartialEq, Eq, Structural)]
pub enum ReceiveEncryption {
    Unencrypted,
    Common,
    Custom,
}

/// A card that accepts uploads from peers.
#[derive(Clone, Debug)]
pub struct ReceiveSession {
    pub id: String,
    pub name: String,
    /// Lowercase extensions without the leading dot; `["*"]` means any file.
    pub extensions: Vec<String>,
    pub encryption: ReceiveEncryption,
    pub custom_password: Option<String>,
    pub created_at: i64,
    pub received_count: u64,
    pub received_bytes: u64,
}


/// Records that are keyed by their random token.
pub trait Keyed {
    /// The token of the record.
    spec fn key(&self) -> Seq<char>;

    /// The token of the record, as text.
    fn id_str(&self) -> (r: &str)
        ensures
            r@ == self.key(),
    ;
}

/// A copy of a list of strings, equal to it.
pub fn copy_strings(v: &Vec<String>) -> (r: Vec<String>)
    ensures
        r@ == v@,
{
    let mut r: Vec<String> = Vec::new();
    let mut i: usize = 0;
    while i < v.len()
        invariant
            i <= v@.len(),
            r@ == v@.take(i as int),
        decreases v.len() - i,
    {
        r.push(v[i].clone());
        i = i + 1;
        assert(r@ =~= v@.take(i as int));
    }
    assert(v@.take(i as int) =~= v@);
    r
}

impl Keyed for ShareSession {
    open spec fn key(&self) -> Seq<char> {
        self.id@
    }

    fn id_str(&self) -> (r: &str) {
        self.id.as_str()
    }

}

impl ShareSession {
    /// A copy of the share, equal to it.
    pub fn duplicate(&self) -> (r: Self)
        ensures
            r == *self,
    {
        ShareSession {
            id: self.id.clone(),
            name: self.name.clone(),
            path: self.path.clone(),
            kind: self.kind,
            size: self.size,
            total_bytes: self.total_bytes,
            created_at: self.created_at,
        }
    }
}

impl Keyed for SiteSession {
    open spec fn key(&self) -> Seq<char> {
        self.id@
    }

    fn id_str(&self) -> (r: &str) {
        self.id.as_str()
    }

}

impl SiteSession {
    /// A copy of the site, equal to it.
    pub fn duplicate(&self) -> (r: Self)
        ensures
            r == *self,
    {
        SiteSession {
            id: self.id.clone(),
            name: self.name.clone(),
            path: self.path.clone(),
            size: self.size,
            total_bytes: self.total_bytes,
            created_at: self.created_at,
            port: self.port,
        }
    }
}

impl Keyed for ReceiveSession {
    open spec fn key(&self) -> Seq<char> {
        self.id@
    }

    fn id_str(&self) -> (r: &str) {
        self.id.as_str()
    }

}

/// Two receive cards hold the same values.
pub open spec fn same_receiver(a: ReceiveSession, b: ReceiveSession) -> bool {
    &&& a.id == b.id
    &&& a.name == b.name
    &&& a.extensions@ == b.extensions@
    &&& a.encryption == b.encryption
    &&& a.custom_password == b.custom_password
    &&& a.created_at == b.created_at
    &&& a.received_count == b.received_count
    &&& a.received_bytes == b.received_bytes
}

impl ReceiveSession {
    /// A copy of the receive card, holding the same values.
    pub fn duplicate(&self) -> (r: Self)
        ensures
            same_receiver(r, *self),
    {
        ReceiveSession {
            id: self.id.clone(),
            name: self.name.clone(),
            extensions: copy_strings(&self.extensions),
            encryption: self.encryption,
            custom_password: crate::storage::copy_opt_string(&self.custom_password),
            created_at: self.created_at,
            received_count: self.received_count,
            received_bytes: self.received_bytes,
        }
    }
}

/// The tokens of `items`, in order.
pub open spec fn keys<T: Keyed>(items: Seq<T>) -> Seq<Seq<char>> {
    items.map_values(|x: T| x.key())
}

/// The position of the first `id` in `ids`.
pub open spec fn first_index(ids: Seq<Seq<char>>, id: Seq<char>) -> Option<int>
    decreases ids.len(),
{
    if ids.len() == 0 {
        None
    } else if ids[0] == id {
        Some(0)
    } else {
        match first_index(ids.drop_first(), id) {
            Some(i) => Some(i + 1),
            None => None,
        }
    }
}

pub proof fn lemma_first_index_found(ids: Seq<Seq<char>>, id: Seq<char>, i: int)
    requires
        0 <= i < ids.len(),
        ids[i] == id,
        forall|j: int| 0 <= j < i ==> ids[j] != id,
    ensures
        first_index(ids, id) == Some(i),
    decreases i,
{
    if i > 0 {
        lemma_first_index_found(ids.drop_first(), id, i - 1);
    }
}

pub proof fn lemma_first_index_absent(ids: Seq<Seq<char>>, id: Seq<char>)
    requires
        forall|j: int| 0 <= j < ids.len() ==> ids[j] != id,
    ensures
        first_index(ids, id) is None,
    decreases ids.len(),
{
    if ids.len() > 0 {
        lemma_first_index_absent(ids.drop_first(), id);
    }
}

/// What `first_index` says about the positions before and at its answer.
pub proof fn lemma_first_index_facts(ids: Seq<Seq<char>>, id: Seq<char>)
    ensures
        match first_index(ids, id) {
            Some(i) => 0 <= i < ids.len() && ids[i] == id && forall|j: int|
                0 <= j < i ==> ids[j] != id,
            None => forall|j: int| 0 <= j < ids.len() ==> ids[j] != id,
        },
    decreases ids.len(),
{
    if ids.len() > 0 {
        lemma_first_index_facts(ids.drop_first(), id);
        if ids[0] != id {
            match first_index(ids.drop_first(), id) {
                Some(i) => {
                    assert forall|j: int| 0 <= j < i + 1 implies ids[j] != id by {
                        if j > 0 {
                            assert(ids[j] == ids.drop_first()[j - 1]);
                        }
                    }
                },
                None => {
                    assert forall|j: int| 0 <= j < ids.len() implies ids[j] != id by {
                        if j > 0 {
                            assert(ids[j] == ids.drop_first()[j - 1]);
                        }
                    }
                },
            }
        }
    }
}

/// The position of the first record of `items` whose token is the text
/// `v[lo..hi]`.
pub fn find_by_id<T: Keyed>(items: &[T], v: &Vec<char>, lo: usize, hi: usize) -> (r: Option<usize>)
    requires
        lo <= hi <= v.len(),
    ensures
        first_index(keys(items@), v@.subrange(lo as int, hi as int)) == match r {
            Some(i) => Some(i as int),
            None => None::<int>,
        },
{
    let ghost id = v@.subrange(lo as int, hi as int);
    let ghost ks = keys(items@);
    let mut i: usize = 0;
    while i < items.len()
        invariant
            i <= items@.len(),
            lo <= hi <= v.len(),
            id == v@.subrange(lo as int, hi as int),
            ks == keys(items@),
            forall|j: int| 0 <= j < i ==> ks[j] != id,
        decreases items.len() - i,
    {
        let w = crate::text::chars_of(items[i].id_str());
        if crate::text::range_eq(v, lo, hi, &w) {
            proof {
                lemma_first_index_found(ks, id, i as int);
            }
            return Some(i);
        }
        i = i + 1;
    }
    proof {
        lemma_first_index_absent(ks, id);
    }
    None
}


// ---------------------------------------------------------------------------
// Registry
// ---------------------------------------------------------------------------
/// No two records share a token.
pub open spec fn unique_keys<T: Keyed>(s: Seq<T>) -> bool {
    forall|i: int, j: int| 0 <= i < j < s.len() ==> s[i].key() != s[j].key()
}

/// The record with token `id`, if any.
pub open spec fn lookup<T: Keyed>(s: Seq<T>, id: Seq<char>) -> Option<T> {
    match first_index(keys(s), id) {
        Some(i) => Some(s[i]),
        None => None,
    }
}

/// In a list with unique tokens, the record at `i` is the one found by its
/// token.
pub proof fn lemma_lookup_at<T: Keyed>(s: Seq<T>, i: int)
    requires
        unique_keys(s),
        0 <= i < s.len(),
    ensures
        lookup(s, s[i].key()) == Some(s[i]),
        first_index(keys(s), s[i].key()) == Some(i),
{
    let ks = keys(s);
    assert forall|j: int| 0 <= j < i implies ks[j] != s[i].key() by {
        assert(ks[j] == s[j].key());
    }
    lemma_first_index_found(ks, s[i].key(), i);
}

/// A token that no record has finds nothing.
pub proof fn lemma_lookup_absent<T: Keyed>(s: Seq<T>, id: Seq<char>)
    requires
        forall|j: int| 0 <= j < s.len() ==> s[j].key() != id,
    ensures
        lookup(s, id) is None,
{
    let ks = keys(s);
    assert forall|j: int| 0 <= j < ks.len() implies ks[j] != id by {
        assert(ks[j] == s[j].key());
    }
    lemma_first_index_absent(ks, id);
}

/// A record found by a token has that token.
pub proof fn lemma_lookup_key<T: Keyed>(s: Seq<T>, id: Seq<char>)
    ensures
        lookup(s, id) matches Some(x) ==> x.key() == id,
{
    let ks = keys(s);
    lemma_first_index_facts(ks, id);
    if let Some(i) = first_index(ks, id) {
        assert(ks[i] == s[i].key());
    }
}

/// A token finds either nothing or a record that has it.
pub proof fn lemma_lookup_cases<T: Keyed>(s: Seq<T>, id: Seq<char>)
    requires
        unique_keys(s),
    ensures
        match lookup(s, id) {
            Some(x) => exists|i: int| 0 <= i < s.len() && s[i] == x && x.key() == id,
            None => forall|j: int| 0 <= j < s.len() ==> s[j].key() != id,
        },
{
    let ks = keys(s);
    lemma_first_index_facts(ks, id);
    match first_index(ks, id) {
        Some(i) => {
            assert(ks[i] == s[i].key());
        },
        None => {
            assert forall|j: int| 0 <= j < s.len() implies s[j].key() != id by {
                assert(ks[j] == s[j].key());
            }
        },
    }
}

/// Records keyed by their token, with no token twice. Inserting a record
/// replaces the one with the same token.
pub struct Registry<T: Keyed> {
    items: Vec<T>,
}

impl<T: Keyed> Registry<T> {
    #[verifier::type_invariant]
    spec fn wf(self) -> bool {
        unique_keys(self.items@)
    }

    /// The records, in insertion order.
    pub closed spec fn records(self) -> Seq<T> {
        self.items@
    }

    /// The record with token `id`, if any.
    pub open spec fn get_spec(self, id: Seq<char>) -> Option<T> {
        lookup(self.records(), id)
    }

    /// An empty registry.
    pub fn new() -> (r: Self)
        ensures
            r.records() == Seq::<T>::empty(),
    {
        Registry { items: Vec::new() }
    }

    /// The number of records.
    pub fn len(&self) -> (n: usize)
        ensures
            n == self.records().len(),
    {
        self.items.len()
    }

    /// All records, in insertion order.
    pub fn list(&self) -> (r: &[T])
        ensures
            r@ == self.records(),
    {
        self.items.as_slice()
    }

    /// The tokens of all records, in insertion order.
    pub fn ids(&self) -> (r: Vec<String>)
        ensures
            r@.len() == self.records().len(),
            forall|i: int| 0 <= i < r@.len() ==> #[trigger] r@[i]@ == self.records()[i].key(),
    {
        let mut r: Vec<String> = Vec::new();
        let mut i: usize = 0;
        while i < self.items.len()
            invariant
                i <= self.items@.len(),
                r@.len() == i,
                forall|j: int| 0 <= j < i ==> #[trigger] r@[j]@ == self.items@[j].key(),
            decreases self.items.len() - i,
        {
            r.push(String::from_str(self.items[i].id_str()));
            i = i + 1;
        }
        r
    }

    /// The position of the record with token `id`.
    fn position(&self, id: &str) -> (r: Option<usize>)
        ensures
            first_index(keys(self.items@), id@) == match r {
                Some(i) => Some(i as int),
                None => None::<int>,
            },
    {
        let v = crate::text::chars_of(id);
        let r = find_by_id(self.items.as_slice(), &v, 0, v.len());
        assert(v@.subrange(0, v.len() as int) =~= id@);
        r
    }

    /// The record with token `id`, if any.
    pub fn get(&self, id: &str) -> (r: Option<&T>)
        ensures
            match self.get_spec(id@) {
                Some(x) => r matches Some(y) && *y == x,
                None => r is None,
            },
    {
        proof {
            lemma_first_index_facts(keys(self.items@), id@);
        }
        match self.position(id) {
            Some(i) => Some(&self.items[i]),
            None => None,
        }
    }

    /// Whether a record has token `id`.
    pub fn contains(&self, id: &str) -> (b: bool)
        ensures
            b == (self.get_spec(id@) is Some),
    {
        self.position(id).is_some()
    }

    /// Inserts `item`, replacing the record with the same token.
    pub fn insert(&mut self, item: T)
        ensures
            final(self).get_spec(item.key()) == Some(item),
            forall|id: Seq<char>|
                id != item.key() ==> #[trigger] final(self).get_spec(id) == old(self).get_spec(id),
    {
        proof {
            use_type_invariant(&*self);
        }
        let ghost old_items = self.items@;
        let ghost k = item.key();
        proof {
            lemma_first_index_facts(keys(old_items), k);
        }
        match self.position(item.id_str()) {
            Some(i) => {
                proof {
                    assert(keys(old_items)[i as int] == old_items[i as int].key());
                }
                let mut items = Vec::new();
                std::mem::swap(&mut items, &mut self.items);
                items.set(i, item);
                proof {
                    let s = items@;
                    assert(s == old_items.update(i as int, item));
                    assert forall|a: int, b: int| 0 <= a < b < s.len() implies s[a].key()
                        != s[b].key() by {
                        if a != i && b != i {
                            assert(s[a] == old_items[a] && s[b] == old_items[b]);
                        } else if a == i {
                            assert(s[b] == old_items[b]);
                            assert(old_items[a].key() != old_items[b].key());
                        } else {
                            assert(s[a] == old_items[a]);
                            assert(old_items[a].key() != old_items[b].key());
                        }
                    }
                    lemma_lookup_at(s, i as int);
                    assert forall|id: Seq<char>| id != k implies #[trigger] lookup(s, id) == lookup(
                        old_items,
                        id,
                    ) by {
                        lemma_lookup_cases(old_items, id);
                        match lookup(old_items, id) {
                            Some(x) => {
                                let j = choose|j: int|
                                    0 <= j < old_items.len() && old_items[j] == x && x.key() == id;
                                assert(j != i);
                                assert(s[j] == x);
                                lemma_lookup_at(s, j);
                                lemma_lookup_at(old_items, j);
                            },
                            None => {
                                assert forall|j: int| 0 <= j < s.len() implies s[j].key()
                                    != id by {
                                    if j != i {
                                        assert(s[j] == old_items[j]);
                                    }
                                }
                                lemma_lookup_absent(s, id);
                            },
                        }
                    }
                }
                self.items = items;
            },
            None => {
                let mut items = Vec::new();
                std::mem::swap(&mut items, &mut self.items);
                items.push(item);
                proof {
                    let s = items@;
                    assert(s == old_items.push(item));
                    assert forall|j: int| 0 <= j < old_items.len() implies old_items[j].key()
                        != k by {
                        assert(keys(old_items)[j] == old_items[j].key());
                    }
                    assert forall|a: int, b: int| 0 <= a < b < s.len() implies s[a].key()
                        != s[b].key() by {
                        assert(s[a] == old_items[a]);
                        if b < old_items.len() {
                            assert(s[b] == old_items[b]);
                        }
                    }
                    lemma_lookup_at(s, old_items.len() as int);
                    assert forall|id: Seq<char>| id != k implies #[trigger] lookup(s, id) == lookup(
                        old_items,
                        id,
                    ) by {
                        lemma_lookup_cases(old_items, id);
                        match lookup(old_items, id) {
                            Some(x) => {
                                let j = choose|j: int|
                                    0 <= j < old_items.len() && old_items[j] == x && x.key() == id;
                                assert(s[j] == x);
                                lemma_lookup_at(s, j);
                                lemma_lookup_at(old_items, j);
                            },
                            None => {
                                assert forall|j: int| 0 <= j < s.len() implies s[j].key()
                                    != id by {
                                    if j < old_items.len() {
                                        assert(s[j] == old_items[j]);
                                    }
                                }
                                lemma_lookup_absent(s, id);
                            },
                        }
                    }
                }
                self.items = items;
            },
        }
    }

    /// Removes the record with token `id`, if any.
    pub fn remove(&mut self, id: &str)
        ensures
            final(self).get_spec(id@) is None,
            forall|other: Seq<char>|
                other != id@ ==> #[trigger] final(self).get_spec(other) == old(self).get_spec(
                    other,
                ),
    {
        proof {
            use_type_invariant(&*self);
        }
        let ghost old_items = self.items@;
        proof {
            lemma_first_index_facts(keys(old_items), id@);
        }
        match self.position(id) {
            Some(i) => {
                proof {
                    assert(keys(old_items)[i as int] == old_items[i as int].key());
                }
                let mut items = Vec::new();
                std::mem::swap(&mut items, &mut self.items);
                let _removed = items.remove(i);
                proof {
                    let s = items@;
                    assert(s == old_items.remove(i as int));
                    assert forall|a: int, b: int| 0 <= a < b < s.len() implies s[a].key()
                        != s[b].key() by {
                        let oa = if a < i {
                            a
                        } else {
                            a + 1
                        };
                        let ob = if b < i {
                            b
                        } else {
                            b + 1
                        };
                        assert(s[a] == old_items[oa] && s[b] == old_items[ob]);
                    }
                    assert forall|j: int| 0 <= j < s.len() implies s[j].key() != id@ by {
                        let oj = if j < i {
                            j
                        } else {
                            j + 1
                        };
                        assert(s[j] == old_items[oj]);
                        assert(old_items[oj].key() != old_items[i as int].key());
                    }
                    lemma_lookup_absent(s, id@);
                    assert forall|other: Seq<char>| other != id@ implies #[trigger] lookup(
                        s,
                        other,
                    ) == lookup(old_items, other) by {
                        lemma_lookup_cases(old_items, other);
                        match lookup(old_items, other) {
                            Some(x) => {
                                let j = choose|j: int|
                                    0 <= j < old_items.len() && old_items[j] == x && x.key()
                                        == other;
                                assert(j != i);
                                let nj = if j < i {
                                    j
                                } else {
                                    j - 1
                                };
                                assert(s[nj] == x);
                                lemma_lookup_at(s, nj);
                                lemma_lookup_at(old_items, j);
                            },
                            None => {
                                assert forall|j: int| 0 <= j < s.len() implies s[j].key()
                                    != other by {
                                    let oj = if j < i {
                                        j
                                    } else {
                                        j + 1
                                    };
                                    assert(s[j] == old_items[oj]);
                                }
                                lemma_lookup_absent(s, other);
                            },
                        }
                    }
                }
                self.items = items;
            },
            None => {
                proof {
                    assert forall|j: int| 0 <= j < old_items.len() implies old_items[j].key()
                        != id@ by {
                        assert(keys(old_items)[j] == old_items[j].key());
                    }
                    lemma_lookup_absent(old_items, id@);
                }
            },
        }
    }

    /// Removes every record.
    pub fn clear(&mut self)
        ensures
            final(self).records() == Seq::<T>::empty(),
    {
        self.items = Vec::new();
    }
}

// ---------------------------------------------------------------------------
// Restoring saved records
// ---------------------------------------------------------------------------
/// The position of the last record of `s` with token `id`.
pub open spec fn last_index<T: Keyed>(s: Seq<T>, id: Seq<char>) -> Option<int>
    decreases s.len(),
{
    if s.len() == 0 {
        None
    } else if s.last().key() == id {
        Some(s.len() - 1)
    } else {
        last_index(s.drop_last(), id)
    }
}

/// A position found by `last_index` holds a record with that token.
pub proof fn lemma_last_index<T: Keyed>(s: Seq<T>, id: Seq<char>)
    ensures
        last_index(s, id) matches Some(i) ==> 0 <= i < s.len() && s[i].key() == id,
    decreases s.len(),
{
    if s.len() > 0 && s.last().key() != id {
        lemma_last_index(s.drop_last(), id);
        if let Some(i) = last_index(s.drop_last(), id) {
            assert(s.drop_last()[i] == s[i]);
        }
    }
}

/// Inserts every record of `items` in order into `registry`: a later record
/// replaces an earlier one with the same token.
pub fn insert_all<T: Keyed>(registry: &mut Registry<T>, items: Vec<T>)
    ensures
        forall|id: Seq<char>|
            #[trigger] final(registry).get_spec(id) == match last_index(items@, id) {
                Some(i) => Some(items@[i]),
                None => old(registry).get_spec(id),
            },
{
    let ghost all = items@;
    let total: usize = items.len();
    let mut rest = items;
    let mut i: usize = 0;
    assert(all.take(0) =~= Seq::<T>::empty());
    assert(all.skip(0) =~= all);
    assert forall|id: Seq<char>| #[trigger] registry.get_spec(id) == match last_index(
        all.take(0),
        id,
    ) {
        Some(j) => Some(all[j]),
        None => old(registry).get_spec(id),
    } by {
        assert(last_index(all.take(0), id) is None);
    }
    while rest.len() > 0
        invariant
            i + rest@.len() == all.len(),
            all.len() == total,
            rest@ == all.skip(i as int),
            forall|id: Seq<char>|
                #[trigger] registry.get_spec(id) == match last_index(all.take(i as int), id) {
                    Some(j) => Some(all[j]),
                    None => old(registry).get_spec(id),
                },
        decreases rest.len(),
    {
        let item = rest.remove(0);
        assert(item == all[i as int]);
        let ghost k = item.key();
        let ghost before = *registry;
        registry.insert(item);
        proof {
            let t = all.take(i + 1);
            assert(t.drop_last() =~= all.take(i as int));
            assert(t.last() == all[i as int]);
            assert forall|id: Seq<char>| #[trigger] registry.get_spec(id) == match last_index(
                t,
                id,
            ) {
                Some(j) => Some(all[j]),
                None => old(registry).get_spec(id),
            } by {
                if id != k {
                    assert(registry.get_spec(id) == before.get_spec(id));
                }
            }
            assert(rest@ =~= all.skip(i + 1));
        }
        i = i + 1;
    }
    assert(all.take(i as int) =~= all);
}

/// `restored` is the saved share `saved` with its path cleaned of the
/// extended-length prefix.
pub open spec fn restored_share(restored: ShareSession, saved: ShareSession) -> bool {
    &&& restored.id == saved.id
    &&& restored.name == saved.name
    &&& restored.path@ == crate::config::strip_extended_prefix_spec(saved.path@)
    &&& restored.kind == saved.kind
    &&& restored.size == saved.size
    &&& restored.total_bytes == saved.total_bytes
    &&& restored.created_at == saved.created_at
}

/// `restored` is the saved site `saved` with its path cleaned of the
/// extended-length prefix.
pub open spec fn restored_site(restored: SiteSession, saved: SiteSession) -> bool {
    &&& restored.id == saved.id
    &&& restored.name == saved.name
    &&& restored.path@ == crate::config::strip_extended_prefix_spec(saved.path@)
    &&& restored.size == saved.size
    &&& restored.total_bytes == saved.total_bytes
    &&& restored.created_at == saved.created_at
    &&& restored.port == saved.port
}

/// Restores saved shares after a restart, so that old links keep working:
/// each path loses its extended-length prefix, and a later share replaces
/// an earlier one with the same token.
pub fn restore_shares(registry: &mut Registry<ShareSession>, saved: &Vec<ShareSession>)
    ensures
        forall|id: Seq<char>|
            match last_index(saved@, id) {
                Some(i) => #[trigger] final(registry).get_spec(id) matches Some(x) && restored_share(
                    x,
                    saved@[i],
                ),
                None => final(registry).get_spec(id) == old(registry).get_spec(id),
            },
{
    let mut cleaned: Vec<ShareSession> = Vec::new();
    let mut i: usize = 0;
    while i < saved.len()
        invariant
            i <= saved@.len(),
            cleaned@.len() == i,
            forall|j: int| 0 <= j < i ==> #[trigger] restored_share(cleaned@[j], saved@[j]),
        decreases saved.len() - i,
    {
        let s = &saved[i];
        let path = crate::config::strip_extended_prefix(s.path.as_str());
        let share = ShareSession {
            id: s.id.clone(),
            name: s.name.clone(),
            path,
            kind: s.kind,
            size: s.size,
            total_bytes: s.total_bytes,
            created_at: s.created_at,
        };
        cleaned.push(share);
        i = i + 1;
    }
    let ghost c = cleaned@;
    proof {
        assert forall|j: int| 0 <= j < c.len() implies #[trigger] c[j].key() == saved@[j].key() by {
            assert(restored_share(c[j], saved@[j]));
        }
    }
    insert_all(registry, cleaned);
    proof {
        assert forall|id: Seq<char>|
            match last_index(saved@, id) {
                Some(i) => #[trigger] registry.get_spec(id) matches Some(x) && restored_share(x, saved@[i]),
                None => registry.get_spec(id) == old(registry).get_spec(id),
            } by {
            lemma_last_index_same_keys(c, saved@, id);
            lemma_last_index(c, id);
            if let Some(i) = last_index(c, id) {
                assert(restored_share(c[i], saved@[i]));
            }
        }
    }
}

/// Restores saved sites after a restart: each path loses its
/// extended-length prefix, and a later site replaces an earlier one with the
/// same token.
pub fn restore_sites(registry: &mut Registry<SiteSession>, saved: &Vec<SiteSession>)
    ensures
        forall|id: Seq<char>|
            match last_index(saved@, id) {
                Some(i) => #[trigger] final(registry).get_spec(id) matches Some(x) && restored_site(
                    x,
                    saved@[i],
                ),
                None => final(registry).get_spec(id) == old(registry).get_spec(id),
            },
{
    let mut cleaned: Vec<SiteSession> = Vec::new();
    let mut i: usize = 0;
    while i < saved.len()
        invariant
            i <= saved@.len(),
            cleaned@.len() == i,
            forall|j: int| 0 <= j < i ==> #[trigger] restored_site(cleaned@[j], saved@[j]),
        decreases saved.len() - i,
    {
        let s = &saved[i];
        let path = crate::config::strip_extended_prefix(s.path.as_str());
        let site = SiteSession {
            id: s.id.clone(),
            name: s.name.clone(),
            path,
            size: s.size,
            total_bytes: s.total_bytes,
            created_at: s.created_at,
            port: s.port,
        };
        cleaned.push(site);
        i = i + 1;
    }
    let ghost c = cleaned@;
    proof {
        assert forall|j: int| 0 <= j < c.len() implies #[trigger] c[j].key() == saved@[j].key() by {
            assert(restored_site(c[j], saved@[j]));
        }
    }
    insert_all(registry, cleaned);
    proof {
        assert forall|id: Seq<char>|
            match last_index(saved@, id) {
                Some(i) => #[trigger] registry.get_spec(id) matches Some(x) && restored_site(x, saved@[i]),
                None => registry.get_spec(id) == old(registry).get_spec(id),
            } by {
            lemma_last_index_same_keys(c, saved@, id);
            lemma_last_index(c, id);
            if let Some(i) = last_index(c, id) {
                assert(restored_site(c[i], saved@[i]));
            }
        }
    }
}

/// Two lists whose records have the same tokens, position by position, find
/// the same last position for every token.
pub proof fn lemma_last_index_same_keys<T: Keyed, U: Keyed>(a: Seq<T>, b: Seq<U>, id: Seq<char>)
    requires
        a.len() == b.len(),
        forall|j: int| 0 <= j < a.len() ==> #[trigger] a[j].key() == b[j].key(),
    ensures
        last_index(a, id) == last_index(b, id),
    decreases a.len(),
{
    if a.len() > 0 {
        assert(a.last().key() == b[b.len() - 1].key());
        assert forall|j: int| 0 <= j < a.drop_last().len() implies #[trigger] a.drop_last()[j].key()
            == b.drop_last()[j].key() by {
            assert(a.drop_last()[j] == a[j] && b.drop_last()[j] == b[j]);
        }
        lemma_last_index_same_keys(a.drop_last(), b.drop_last(), id);
    }
}

// ---------------------------------------------------------------------------
// Application state
// ---------------------------------------------------------------------------
/// What the server knows while it runs: where its files are, the port it
/// listens on, and the shares, sites and receive cards, each keyed by its
/// random token.
pub struct AppState {
    /// Stable application data directory holding config.json and shares.json.
    pub base_dir: String,
    /// Download-history directory; user-configurable.
    pub data_dir: String,
    /// TCP port that the embedded receiver listens on.
    pub port: u16,
    /// Active shares.
    pub shares: Registry<ShareSession>,
    /// Static website sessions.
    pub sites: Registry<SiteSession>,
    /// File receive cards.
    pub receivers: Registry<ReceiveSession>,
}

impl AppState {
    /// A state with the given directories and port and no records.
    pub fn new(base_dir: String, data_dir: String, port: u16) -> (r: Self)
        ensures
            r.base_dir == base_dir,
            r.data_dir == data_dir,
            r.port == port,
            r.shares.records() == Seq::<ShareSession>::empty(),
            r.sites.records() == Seq::<SiteSession>::empty(),
            r.receivers.records() == Seq::<ReceiveSession>::empty(),
    {
        AppState {
            base_dir,
            data_dir,
            port,
            shares: Registry::new(),
            sites: Registry::new(),
            receivers: Registry::new(),
        }
    }
}

// ---------------------------------------------------------------------------
// Random tokens
// ---------------------------------------------------------------------------
/// The multiplier of the 64-bit FNV-1a hash.
pub const FNV_PRIME: u64 = 0x100000001b3;

/// The offset basis of the 64-bit FNV-1a hash.
pub const FNV_OFFSET: u64 = 0xcbf29ce484222325;

/// The golden-ratio constant that spreads the process id.
pub const GOLDEN: u64 = 0x9E3779B97F4A7C15;

/// The length of a token.
pub const TOKEN_LEN: usize = 10;

/// The 64-bit seed mixed from the clock and the process id; odd.
pub open spec fn token_seed(nanos: u64, pid: u64) -> u64 {
    let h = (FNV_OFFSET ^ nanos ^ pid.wrapping_mul(GOLDEN)).wrapping_mul(FNV_PRIME);
    (h ^ nanos).wrapping_mul(FNV_PRIME) | 1
}

/// The digit `d` (below 36) of the token alphabet `a`..`z`, `0`..`9`.
pub open spec fn token_char(d: u64) -> char {
    if d < 26 {
        ((97 + d) as u8) as char
    } else {
        ((48 + d - 26) as u8) as char
    }
}

/// The `n` token characters drawn from the state `x`.
pub open spec fn token_chars(x: u64, n: nat) -> Seq<char>
    decreases n,
{
    if n == 0 {
        Seq::<char>::empty()
    } else {
        seq![token_char(x % 36)] + token_chars((x / 36).wrapping_mul(FNV_PRIME), (n - 1) as nat)
    }
}

/// Whether `c` is a lower-case ASCII letter or an ASCII digit.
pub open spec fn is_token_char(c: char) -> bool {
    ('a' <= c && c <= 'z') || ('0' <= c && c <= '9')
}

/// A token as records are given: non-empty, of lower-case ASCII letters and
/// digits.
pub open spec fn is_token(id: Seq<char>) -> bool {
    id.len() > 0 && forall|i: int| 0 <= i < id.len() ==> #[trigger] is_token_char(id[i])
}

/// A fresh token for a record, made from the clock reading `nanos` (in
/// nanoseconds) and the process id `pid`: ten lower-case letters and digits.
pub fn random_id(nanos: u64, pid: u64) -> (r: String)
    ensures
        r@ == token_chars(token_seed(nanos, pid), TOKEN_LEN as nat),
        r@.len() == TOKEN_LEN,
        is_token(r@),
{
    let h = (FNV_OFFSET ^ nanos ^ pid.wrapping_mul(GOLDEN)).wrapping_mul(FNV_PRIME);
    let mut x: u64 = (h ^ nanos).wrapping_mul(FNV_PRIME) | 1;
    let ghost seed = x;
    let mut out = String::new();
    let mut n: usize = 0;
    while n < TOKEN_LEN
        invariant
            n <= TOKEN_LEN,
            token_chars(seed, TOKEN_LEN as nat) == out@ + token_chars(x, (TOKEN_LEN - n) as nat),
        decreases TOKEN_LEN - n,
    {
        let d = x % 36;
        let c: char = if d < 26 {
            ((97 + d) as u8) as char
        } else {
            ((48 + d - 26) as u8) as char
        };
        let ghost before = out@;
        out.push(c);
        let ghost x0 = x;
        x = (x / 36).wrapping_mul(FNV_PRIME);
        proof {
            assert(token_chars(x0, (TOKEN_LEN - n) as nat) == seq![c] + token_chars(
                x,
                (TOKEN_LEN - n - 1) as nat,
            ));
            assert(out@ == before.push(c));
            assert(before + (seq![c] + token_chars(x, (TOKEN_LEN - n - 1) as nat)) =~= out@
                + token_chars(x, (TOKEN_LEN - n - 1) as nat));
        }
        n = n + 1;
    }
    assert(token_chars(x, 0) =~= Seq::<char>::empty());
    assert(out@ + Seq::<char>::empty() =~= out@);
    proof {
        lemma_token_shape(seed, TOKEN_LEN as nat);
    }
    out
}

/// Every token is ten characters long and made of lower-case ASCII letters
/// and digits.
pub proof fn lemma_token_shape(x: u64, n: nat)
    ensures
        token_chars(x, n).len() == n,
        forall|i: int| 0 <= i < n ==> #[trigger] is_token_char(token_chars(x, n)[i]),
    decreases n,
{
    if n > 0 {
        let rest = token_chars((x / 36).wrapping_mul(FNV_PRIME), (n - 1) as nat);
        lemma_token_shape((x / 36).wrapping_mul(FNV_PRIME), (n - 1) as nat);
        let d = x % 36;
        assert(is_token_char(token_char(d)));
        assert forall|i: int| 0 <= i < n implies #[trigger] is_token_char(token_chars(x, n)[i]) by {
            if i > 0 {
                assert(token_chars(x, n)[i] == rest[i - 1]);
            }
        }
    }
}

} // verus!
