//! The key-value store: scalar entries, each with an optional deadline.

use crate::buffer::bytes_from_text;
use crate::buffer::bytes_from_vec;
use crate::buffer::bytes_of;
use crate::buffer::contents;
use crate::buffer::holds_text;
use crate::buffer::text;
use crate::bytemap::ByteMap;
use crate::clock::product;
use crate::clock::saturating_product;
use crate::clock::Clock;
use crate::decimal::lemma_parse_format_i64;
use crate::decimal::parse_i64;
use crate::decimal::push_i64;
use crate::decimal::spec_format_i64;
use crate::decimal::spec_parse_i64;
use crate::glob::glob_match;
use crate::rdb::parse_rdb;
use crate::rdb::spec_parse_rdb;
use crate::rdb::DatabaseView;
use crate::rdb::KeyValuePair;
use crate::rdb::PairView;
use crate::rdb::RdbError;
use crate::rdb::RdbFile;
use crate::rdb::RdbFileView;
use crate::rdb::Value;
use crate::glob::match_pattern;
use crate::resp::lemma_array_view;
use crate::resp::views;
use crate::resp::RedisValueRef;
use crate::resp::Resp;
use bytes::Bytes;
use vstd::prelude::*;

verus! {

/// What the store keeps under a key.
pub struct Entry {
    pub value: Bytes,
    /// The point on the monotonic clock, in milliseconds, from which the
    /// entry counts as gone.
    pub expiry: Option<u64>,
}

/// The mathematical value of an `Entry`.
pub struct EntryView {
    pub value: Seq<u8>,
    pub expiry: Option<u64>,
}

impl Entry {
    pub open spec fn view(&self) -> EntryView {
        EntryView { value: contents(self.value), expiry: self.expiry }
    }
}

/// Whether an entry counts as gone at `now`.
pub open spec fn expired(e: EntryView, now: u64) -> bool {
    e.expiry matches Some(deadline) && now >= deadline
}

/// Whether `k` is a key whose entry is there and not gone at `now`.
pub open spec fn live(m: Map<Seq<u8>, EntryView>, k: Seq<u8>, now: u64) -> bool {
    m.contains_key(k) && !expired(m[k], now)
}

/// A count of seconds or milliseconds as a client gives it; a negative one
/// counts as none.
pub open spec fn amount_of(amount: i64) -> u64 {
    if amount < 0 {
        0
    } else {
        amount as u64
    }
}

/// The deadline that an expiry option of `SET` asks for: `EX` seconds or `PX`
/// milliseconds from now, `EXAT` seconds or `PXAT` milliseconds of Unix
/// time. Any other option gives the present moment, so that the entry is
/// gone as soon as it is written.
pub open spec fn spec_deadline(mode: Seq<u8>, amount: i64, clock: Clock) -> u64 {
    if mode == text("EX") {
        clock.spec_deadline_in(saturating_product(amount_of(amount), 1000))
    } else if mode == text("PX") {
        clock.spec_deadline_in(amount_of(amount))
    } else if mode == text("EXAT") {
        clock.spec_deadline_at(saturating_product(amount_of(amount), 1000))
    } else if mode == text("PXAT") {
        clock.spec_deadline_at(amount_of(amount))
    } else {
        clock.monotonic_ms
    }
}

pub open spec fn spec_expiry(expiry: Option<(Seq<u8>, i64)>, clock: Clock) -> Option<u64> {
    match expiry {
        Some((mode, amount)) => Some(spec_deadline(mode, amount, clock)),
        None => None,
    }
}

/// The store and the value after a read of `k` at `now`: an entry that is
/// gone leaves the store with the read.
pub open spec fn spec_get(m: Map<Seq<u8>, EntryView>, k: Seq<u8>, now: u64) -> (
    Map<Seq<u8>, EntryView>,
    Option<Seq<u8>>,
) {
    if !m.contains_key(k) {
        (m, None)
    } else if expired(m[k], now) {
        (m.remove(k), None)
    } else {
        (m, Some(m[k].value))
    }
}

/// The store and the number after an increment of `k` at `now`. A key that
/// is absent or gone starts at 1, without deadline. A value that is no
/// number, or the largest one, stays as it is and gives no number.
pub open spec fn spec_incr(m: Map<Seq<u8>, EntryView>, k: Seq<u8>, now: u64) -> (
    Map<Seq<u8>, EntryView>,
    Option<i64>,
) {
    if !live(m, k, now) {
        (m.insert(k, EntryView { value: spec_format_i64(1), expiry: None }), Some(1i64))
    } else {
        match spec_parse_i64(m[k].value) {
            Some(n) => if n < i64::MAX {
                (
                    m.insert(
                        k,
                        EntryView { value: spec_format_i64((n + 1) as i64), expiry: m[k].expiry },
                    ),
                    Some((n + 1) as i64),
                )
            } else {
                (m, None)
            },
            None => (m, None),
        }
    }
}

/// A value that was set is read back, as long as its deadline has not come:
/// the read returns the value and leaves the store as the write left it.
pub proof fn lemma_get_after_set(
    m: Map<Seq<u8>, EntryView>,
    k: Seq<u8>,
    v: Seq<u8>,
    expiry: Option<(Seq<u8>, i64)>,
    clock: Clock,
    now: u64,
)
    requires
        spec_expiry(expiry, clock) matches Some(deadline) ==> now < deadline,
    ensures
        spec_get(m.insert(k, EntryView { value: v, expiry: spec_expiry(expiry, clock) }), k, now)
            == (
            m.insert(k, EntryView { value: v, expiry: spec_expiry(expiry, clock) }),
            Some(v),
        ),
{
}

/// The store and the number after `k` was incremented once at each of the
/// times `nows`, in their order.
pub open spec fn incr_times(m: Map<Seq<u8>, EntryView>, k: Seq<u8>, nows: Seq<u64>) -> (
    Map<Seq<u8>, EntryView>,
    Option<i64>,
)
    decreases nows.len(),
{
    if nows.len() == 0 {
        (m, None)
    } else {
        spec_incr(incr_times(m, k, nows.drop_last()).0, k, nows.last())
    }
}

/// A fresh key that is incremented `n` times holds `n`, whenever the
/// increments come.
pub proof fn lemma_incr_counts(m: Map<Seq<u8>, EntryView>, k: Seq<u8>, nows: Seq<u64>)
    requires
        !m.contains_key(k),
        0 < nows.len() <= i64::MAX,
    ensures
        incr_times(m, k, nows).1 == Some(nows.len() as i64),
        incr_times(m, k, nows).0 == m.insert(
            k,
            EntryView { value: spec_format_i64(nows.len() as i64), expiry: None },
        ),
    decreases nows.len(),
{
    if nows.len() == 1 {
        assert(nows.drop_last().len() == 0);
        assert(incr_times(m, k, nows.drop_last()).0 == m);
    } else {
        let earlier = nows.drop_last();
        lemma_incr_counts(m, k, earlier);
        let n = earlier.len() as i64;
        lemma_parse_format_i64(n);
        let before = incr_times(m, k, earlier).0;
        assert(before[k] == EntryView { value: spec_format_i64(n), expiry: None });
        assert(before.insert(
            k,
            EntryView { value: spec_format_i64((n + 1) as i64), expiry: None },
        ) =~= m.insert(k, EntryView { value: spec_format_i64(nows.len() as i64), expiry: None }));
    }
}

/// `KEYS *` lists every key whose entry is not gone.
pub proof fn lemma_keys_star(m: Map<Seq<u8>, EntryView>, now: u64)
    ensures
        matching_keys(m, text("*"), now) == Set::new(|k: Seq<u8>| live(m, k, now)),
{
    reveal_strlit("*");
    assert("*"@ =~= seq!['*']);
    assert(vstd::string::is_ascii("*")) by {
        assert(vstd::utf8::is_ascii_chars("*"@));
    }
    crate::buffer::lemma_text_ascii("*");
    assert(text("*") =~= seq![42u8]);
    assert forall|k: Seq<u8>| glob_match(text("*"), k) by {
        crate::glob::lemma_star_matches_all(k);
    }
    assert(matching_keys(m, text("*"), now) =~= Set::new(|k: Seq<u8>| live(m, k, now)));
}

/// The keys that `KEYS pattern` lists at `now`.
pub open spec fn matching_keys(m: Map<Seq<u8>, EntryView>, pattern: Seq<u8>, now: u64) -> Set<
    Seq<u8>,
> {
    Set::new(|k: Seq<u8>| live(m, k, now) && glob_match(pattern, k))
}

/// The byte strings of a reply that is an array of bulk strings.
pub open spec fn bulk_items(r: Resp) -> Option<Seq<Seq<u8>>> {
    match r {
        Resp::Array(items) => if forall|i: int|
            0 <= i < items.len() ==> #[trigger] items[i] is BulkString {
            Some(Seq::new(items.len(), |i: int| items[i]->BulkString_0))
        } else {
            None
        },
        _ => None,
    }
}

/// The store after an entry of a snapshot was taken in: an entry whose
/// deadline has passed is left out.
pub open spec fn seed_entry(m: Map<Seq<u8>, EntryView>, pair: PairView, clock: Clock) -> Map<
    Seq<u8>,
    EntryView,
> {
    match pair.expire {
        None => m.insert(pair.key, EntryView { value: pair.value, expiry: None }),
        Some(when) => match when.spec_to_instant(clock) {
            Some(deadline) => m.insert(
                pair.key,
                EntryView { value: pair.value, expiry: Some(deadline) },
            ),
            None => m,
        },
    }
}

/// The store after the first `n` entries were taken in, in their order.
pub open spec fn seed_entries(
    m: Map<Seq<u8>, EntryView>,
    entries: Seq<PairView>,
    n: nat,
    clock: Clock,
) -> Map<Seq<u8>, EntryView>
    decreases n,
{
    if n == 0 {
        m
    } else {
        seed_entry(seed_entries(m, entries, (n - 1) as nat, clock), entries[n - 1], clock)
    }
}

/// The store after the first `n` databases were taken in, in their order.
/// All of them go into the one store.
pub open spec fn seed_databases(
    m: Map<Seq<u8>, EntryView>,
    databases: Seq<DatabaseView>,
    n: nat,
    clock: Clock,
) -> Map<Seq<u8>, EntryView>
    decreases n,
{
    if n == 0 {
        m
    } else {
        let before = seed_databases(m, databases, (n - 1) as nat, clock);
        seed_entries(before, databases[n - 1].entries, databases[n - 1].entries.len(), clock)
    }
}

/// The store after a snapshot was taken in.
pub open spec fn spec_seed(m: Map<Seq<u8>, EntryView>, file: RdbFileView, clock: Clock) -> Map<
    Seq<u8>,
    EntryView,
> {
    seed_databases(m, file.databases, file.databases.len(), clock)
}

impl Default for KeyValue {
    fn default() -> (kv: Self)
        ensures
            kv.wf(),
            kv@ == Map::<Seq<u8>, EntryView>::empty(),
    {
        Self::new()
    }
}

/// Where the snapshot that seeded the store was read from.
pub struct RdbPath {
    pub dir: String,
    pub dbfilename: String,
}

impl RdbPath {
    pub fn new() -> (p: Self)
        ensures
            p.dir@ == Seq::<char>::empty(),
            p.dbfilename@ == Seq::<char>::empty(),
    {
        RdbPath { dir: String::new(), dbfilename: String::new() }
    }
}

pub struct KeyValue {
    entries: ByteMap<Entry>,
    path: RdbPath,
}

impl KeyValue {
    pub closed spec fn wf(&self) -> bool {
        self.entries.wf()
    }

    /// The entries, by key.
    pub closed spec fn view(&self) -> Map<Seq<u8>, EntryView> {
        self.entries@.map_values(|e: Entry| e@)
    }

    pub closed spec fn dir(&self) -> Seq<char> {
        self.path.dir@
    }

    pub closed spec fn dbfilename(&self) -> Seq<char> {
        self.path.dbfilename@
    }

    pub fn new() -> (kv: Self)
        ensures
            kv.wf(),
            kv@ == Map::<Seq<u8>, EntryView>::empty(),
            kv.dir() == Seq::<char>::empty(),
            kv.dbfilename() == Seq::<char>::empty(),
    {
        let kv = KeyValue { entries: ByteMap::new(), path: RdbPath::new() };
        assert(kv@ =~= Map::<Seq<u8>, EntryView>::empty());
        kv
    }

    pub fn get_dir(&self) -> (dir: String)
        ensures
            dir@ == self.dir(),
    {
        self.path.dir.clone()
    }

    pub fn get_filename(&self) -> (name: String)
        ensures
            name@ == self.dbfilename(),
    {
        self.path.dbfilename.clone()
    }

    /// Records where the snapshot lies.
    pub fn set_path(&mut self, dir: String, dbfilename: String)
        requires
            old(self).wf(),
        ensures
            final(self).wf(),
            final(self)@ == old(self)@,
            final(self).dir() == dir@,
            final(self).dbfilename() == dbfilename@,
    {
        self.path = RdbPath { dir, dbfilename };
    }

    /// Writes an entry with a deadline already worked out.
    pub fn put(&mut self, key: Bytes, value: Bytes, expiry: Option<u64>)
        requires
            old(self).wf(),
        ensures
            final(self).wf(),
            final(self)@ == old(self)@.insert(
                contents(key),
                EntryView { value: contents(value), expiry },
            ),
            final(self).dir() == old(self).dir(),
            final(self).dbfilename() == old(self).dbfilename(),
    {
        let ghost k = contents(key);
        let ghost e = EntryView { value: contents(value), expiry };
        self.entries.insert(key, Entry { value, expiry });
        assert(self@ =~= old(self)@.insert(k, e));
    }

    /// Takes in one entry of a snapshot.
    fn seed_pair(&mut self, pair: &KeyValuePair, clock: Clock)
        requires
            old(self).wf(),
        ensures
            final(self).wf(),
            final(self)@ == seed_entry(old(self)@, pair@, clock),
            final(self).dir() == old(self).dir(),
            final(self).dbfilename() == old(self).dbfilename(),
    {
        let deadline = match pair.expire {
            None => None,
            Some(when) => match when.to_instant(clock) {
                Some(deadline) => Some(deadline),
                None => {
                    return ;
                },
            },
        };
        let key = bytes_from_vec(vstd::slice::slice_to_vec(pair.key.as_slice()));
        let value = match &pair.value {
            Value::String(text) => bytes_from_vec(vstd::slice::slice_to_vec(text.as_slice())),
        };
        self.put(key, value, deadline);
    }

    /// Takes in the entries of a snapshot, in file order. An entry whose
    /// deadline has passed at `clock` is left out; one that is taken in
    /// replaces the entry that its key had.
    pub fn seed_from_rdb(&mut self, file: &RdbFile, clock: Clock)
        requires
            old(self).wf(),
        ensures
            final(self).wf(),
            final(self)@ == spec_seed(old(self)@, file@, clock),
            final(self).dir() == old(self).dir(),
            final(self).dbfilename() == old(self).dbfilename(),
    {
        let mut d: usize = 0;
        while d < file.databases.len()
            invariant
                self.wf(),
                d <= file.databases@.len(),
                self@ == seed_databases(old(self)@, file@.databases, d as nat, clock),
                self.dir() == old(self).dir(),
                self.dbfilename() == old(self).dbfilename(),
            decreases file.databases@.len() - d,
        {
            let database = &file.databases[d];
            let ghost before = self@;
            assert(file@.databases[d as int] == database@);
            let mut i: usize = 0;
            while i < database.entries.len()
                invariant
                    self.wf(),
                    i <= database.entries@.len(),
                    self@ == seed_entries(before, database@.entries, i as nat, clock),
                    self.dir() == old(self).dir(),
                    self.dbfilename() == old(self).dbfilename(),
                decreases database.entries@.len() - i,
            {
                assert(database@.entries[i as int] == database.entries@[i as int]@);
                self.seed_pair(&database.entries[i], clock);
                i = i + 1;
            }
            d = d + 1;
        }
    }

    /// Reads a snapshot from `rdb_data` and takes its entries in. Data that
    /// is no snapshot is reported, and the store stays as it is.
    pub fn load_from_rdb(&mut self, rdb_data: &[u8], clock: Clock) -> (r: Result<(), RdbError>)
        requires
            old(self).wf(),
        ensures
            final(self).wf(),
            match spec_parse_rdb(rdb_data@) {
                Ok(file) => r is Ok && final(self)@ == spec_seed(old(self)@, file, clock),
                Err(e) => r == Err::<(), RdbError>(e) && final(self)@ == old(self)@,
            },
            final(self).dir() == old(self).dir(),
            final(self).dbfilename() == old(self).dbfilename(),
    {
        match parse_rdb(rdb_data) {
            Ok(file) => {
                self.seed_from_rdb(&file, clock);
                Ok(())
            },
            Err(e) => Err(e),
        }
    }

    /// Records where the snapshot lies, and takes in what was read from
    /// there: `contents` holds the file's bytes, or nothing if the file could
    /// not be read.
    pub fn load_from_rdb_file(
        &mut self,
        dir: String,
        dbfilename: String,
        contents: Option<&[u8]>,
        clock: Clock,
    ) -> (r: Result<(), RdbError>)
        requires
            old(self).wf(),
        ensures
            final(self).wf(),
            final(self).dir() == dir@,
            final(self).dbfilename() == dbfilename@,
            match contents {
                Some(data) => match spec_parse_rdb(data@) {
                    Ok(file) => r is Ok && final(self)@ == spec_seed(old(self)@, file, clock),
                    Err(e) => r == Err::<(), RdbError>(e) && final(self)@ == old(self)@,
                },
                None => r == Err::<(), RdbError>(RdbError::IoError) && final(self)@ == old(self)@,
            },
    {
        self.set_path(dir, dbfilename);
        match contents {
            Some(data) => self.load_from_rdb(data, clock),
            None => Err(RdbError::IoError),
        }
    }

    /// `SET`: writes the entry, over any entry that was there.
    pub fn insert_entry(
        &mut self,
        key: Bytes,
        value: Bytes,
        expiry: Option<(Bytes, i64)>,
        clock: Clock,
    )
        requires
            old(self).wf(),
        ensures
            final(self).wf(),
            final(self)@ == old(self)@.insert(
                contents(key),
                EntryView {
                    value: contents(value),
                    expiry: spec_expiry(
                        match expiry {
                            Some((mode, amount)) => Some((contents(mode), amount)),
                            None => None,
                        },
                        clock,
                    ),
                },
            ),
            final(self).dir() == old(self).dir(),
            final(self).dbfilename() == old(self).dbfilename(),
    {
        let deadline = match expiry {
            Some((mode, amount)) => {
                let count: u64 = if amount < 0 {
                    0
                } else {
                    amount as u64
                };
                if holds_text(&mode, "EX") {
                    Some(clock.deadline_in(product(count, 1000)))
                } else if holds_text(&mode, "PX") {
                    Some(clock.deadline_in(count))
                } else if holds_text(&mode, "EXAT") {
                    Some(clock.deadline_at(product(count, 1000)))
                } else if holds_text(&mode, "PXAT") {
                    Some(clock.deadline_at(count))
                } else {
                    Some(clock.monotonic_ms)
                }
            },
            None => None,
        };
        self.put(key, value, deadline);
    }

    /// `GET`: the value under `key`, unless the entry is absent or gone. An
    /// entry that is gone is removed by the read.
    pub fn get_entry(&mut self, key: &Bytes, now: u64) -> (found: Option<Bytes>)
        requires
            old(self).wf(),
        ensures
            final(self).wf(),
            final(self)@ == spec_get(old(self)@, contents(*key), now).0,
            match spec_get(old(self)@, contents(*key), now).1 {
                Some(value) => found matches Some(b) && contents(b) == value,
                None => found is None,
            },
            final(self).dir() == old(self).dir(),
            final(self).dbfilename() == old(self).dbfilename(),
    {
        let (value, gone) = match self.entries.get(bytes_of(key)) {
            Some(entry) => {
                let gone = match entry.expiry {
                    Some(deadline) => now >= deadline,
                    None => false,
                };
                if gone {
                    (None, true)
                } else {
                    (Some(entry.value.clone()), false)
                }
            },
            None => (None, false),
        };
        if gone {
            self.entries.remove(bytes_of(key));
            assert(self@ =~= old(self)@.remove(contents(*key)));
        }
        value
    }

    /// Whether `key` has an entry that is not gone at `now`.
    pub fn exists_at(&self, key: &Bytes, now: u64) -> (b: bool)
        requires
            self.wf(),
        ensures
            b == live(self@, contents(*key), now),
    {
        match self.entries.get(bytes_of(key)) {
            Some(entry) => match entry.expiry {
                Some(deadline) => now < deadline,
                None => true,
            },
            None => false,
        }
    }

    /// Whether `key` has an entry, gone or not.
    pub fn contains(&self, key: &Bytes) -> (b: bool)
        requires
            self.wf(),
        ensures
            b == self@.contains_key(contents(*key)),
    {
        self.entries.contains_key(bytes_of(key))
    }

    /// `INCR`: adds one to the number under `key`, which starts at zero where
    /// the key is absent or its entry is gone. The deadline of an entry that
    /// is counted up stays. A value that is no 64-bit number, or the largest
    /// one, is left alone and reported.
    pub fn incr(&mut self, key: &Bytes, now: u64) -> (r: Result<i64, String>)
        requires
            old(self).wf(),
        ensures
            final(self).wf(),
            final(self)@ == spec_incr(old(self)@, contents(*key), now).0,
            match spec_incr(old(self)@, contents(*key), now).1 {
                Some(n) => r == Ok::<i64, String>(n),
                None => r matches Err(message) && message@
                    == "ERR value is not an integer or out of range"@,
            },
            final(self).dir() == old(self).dir(),
            final(self).dbfilename() == old(self).dbfilename(),
    {
        let current: Option<(Option<i64>, Option<u64>)> = match self.entries.get(bytes_of(key)) {
            Some(entry) => {
                let gone = match entry.expiry {
                    Some(deadline) => now >= deadline,
                    None => false,
                };
                if gone {
                    None
                } else {
                    Some((parse_i64(bytes_of(&entry.value)), entry.expiry))
                }
            },
            None => None,
        };
        match current {
            None => {
                let mut digits: Vec<u8> = Vec::new();
                push_i64(&mut digits, 1);
                assert(digits@ =~= spec_format_i64(1));
                self.put(key.clone(), bytes_from_vec(digits), None);
                Ok(1)
            },
            Some((Some(n), expiry)) => {
                if n < i64::MAX {
                    let mut digits: Vec<u8> = Vec::new();
                    push_i64(&mut digits, n + 1);
                    assert(digits@ =~= spec_format_i64((n + 1) as i64));
                    self.put(key.clone(), bytes_from_vec(digits), expiry);
                    Ok(n + 1)
                } else {
                    Err("ERR value is not an integer or out of range".to_string())
                }
            },
            Some((None, _)) => Err("ERR value is not an integer or out of range".to_string()),
        }
    }

    /// Every key that has an entry, gone or not, each once.
    pub fn get_all_keys(&self) -> (keys: Vec<Bytes>)
        requires
            self.wf(),
        ensures
            crate::buffer::all_contents(keys@).no_duplicates(),
            crate::buffer::all_contents(keys@).to_set() == self@.dom(),
    {
        let mut keys: Vec<Bytes> = Vec::new();
        let n = self.entries.len();
        let mut i: usize = 0;
        proof {
            self.entries.lemma_listing();
        }
        while i < n
            invariant
                self.entries.wf(),
                n == self.entries.key_seq().len(),
                i <= n,
                keys@.len() == i,
                forall|j: int| 0 <= j < i ==> contents(keys@[j]) == self.entries.key_seq()[j],
            decreases n - i,
        {
            keys.push(self.entries.key_at(i).clone());
            i = i + 1;
        }
        proof {
            let ks = crate::buffer::all_contents(keys@);
            assert(ks =~= self.entries.key_seq());
            assert(ks.to_set() =~= self@.dom()) by {
                assert forall|k: Seq<u8>| ks.to_set().contains(k) <==> self@.dom().contains(k) by {
                    if ks.contains(k) {
                        assert(self.entries@.contains_key(k));
                    }
                    if self@.dom().contains(k) {
                        assert(self.entries@.contains_key(k));
                        assert(ks.contains(k));
                    }
                }
            }
        }
        keys
    }

    /// `KEYS`: the keys that match `pattern` and whose entries are not gone
    /// at `now`, each once, in no particular order.
    pub fn keys(&self, pattern: Bytes, now: u64) -> (r: RedisValueRef)
        requires
            self.wf(),
        ensures
            bulk_items(r@) matches Some(ks) && ks.no_duplicates() && ks.to_set() == matching_keys(
                self@,
                contents(pattern),
                now,
            ),
    {
        let mut res: Vec<RedisValueRef> = Vec::new();
        let ghost mut picked: Seq<int> = Seq::empty();
        let n = self.entries.len();
        let pat = bytes_of(&pattern);
        let mut i: usize = 0;
        proof {
            self.entries.lemma_listing();
        }
        let ghost keys = self.entries.key_seq();
        while i < n
            invariant
                self.entries.wf(),
                keys == self.entries.key_seq(),
                n == keys.len(),
                pat@ == contents(pattern),
                i <= n,
                res@.len() == picked.len(),
                forall|j: int| 0 <= j < picked.len() ==> 0 <= #[trigger] picked[j] < i,
                forall|a: int, b: int| 0 <= a < b < picked.len() ==> picked[a] < picked[b],
                forall|j: int|
                    0 <= j < picked.len() ==> (#[trigger] res@[j])@ == Resp::BulkString(
                        keys[picked[j]],
                    ),
                forall|t: int|
                    0 <= t < i ==> (picked.contains(t) <==> live(self@, #[trigger] keys[t], now)
                        && glob_match(contents(pattern), keys[t])),
            decreases n - i,
        {
            proof {
                self.entries.lemma_listing();
            }
            let entry = self.entries.value_at(i);
            let key = self.entries.key_at(i);
            let gone = match entry.expiry {
                Some(deadline) => now >= deadline,
                None => false,
            };
            let ghost before = picked;
            if !gone && match_pattern(pat, bytes_of(key)) {
                res.push(RedisValueRef::BulkString(key.clone()));
                proof {
                    picked = picked.push(i as int);
                }
            }
            proof {
                assert(self@[keys[i as int]] == self.entries.value_seq()[i as int]@);
                assert forall|t: int| 0 <= t < i + 1 implies (picked.contains(t) <==> live(
                    self@,
                    #[trigger] keys[t],
                    now,
                ) && glob_match(contents(pattern), keys[t])) by {
                    if t < i {
                        if before.contains(t) {
                            let j = choose|j: int| 0 <= j < before.len() && before[j] == t;
                            assert(picked[j] == t);
                        }
                        if picked.contains(t) {
                            let j = choose|j: int| 0 <= j < picked.len() && picked[j] == t;
                            if j < before.len() {
                                assert(before[j] == t);
                            }
                        }
                    } else {
                        if picked.len() > before.len() {
                            assert(picked[before.len() as int] == i);
                        }
                        if picked.contains(t) {
                            let j = choose|j: int| 0 <= j < picked.len() && picked[j] == t;
                            if j < before.len() {
                                assert(before[j] < i);
                            }
                        }
                    }
                }
            }
            i = i + 1;
        }
        let r = RedisValueRef::Array(res);
        proof {
            self.entries.lemma_listing();
            lemma_array_view(res);
            let items = views(res@);
            assert forall|j: int| 0 <= j < items.len() implies #[trigger] items[j] is BulkString by {
                assert(res@[j]@ == Resp::BulkString(keys[picked[j]]));
            }
            let ks = bulk_items(r@)->Some_0;
            assert forall|j: int| 0 <= j < ks.len() implies ks[j] == keys[picked[j]] by {
                assert(res@[j]@ == Resp::BulkString(keys[picked[j]]));
            }
            assert forall|a: int, b: int| 0 <= a < ks.len() && 0 <= b < ks.len() && a != b implies ks[a]
                != ks[b] by {
                if a < b {
                    assert(picked[a] < picked[b]);
                } else {
                    assert(picked[b] < picked[a]);
                }
            }
            let goal = matching_keys(self@, contents(pattern), now);
            assert forall|k: Seq<u8>| ks.to_set().contains(k) <==> goal.contains(k) by {
                if ks.contains(k) {
                    let j = choose|j: int| 0 <= j < ks.len() && ks[j] == k;
                    assert(picked.contains(picked[j]));
                    assert(keys[picked[j]] == k);
                }
                if goal.contains(k) {
                    assert(live(self@, k, now));
                    assert(self@.contains_key(k));
                    assert(self.entries@.contains_key(k));
                    assert(self.entries.key_seq().contains(k));
                    let t = keys.index_of(k);
                    assert(keys[t] == k);
                    assert(picked.contains(t));
                    let j = choose|j: int| 0 <= j < picked.len() && picked[j] == t;
                    assert(ks[j] == k);
                }
            }
            assert(ks.to_set() =~= goal);
        }
        r
    }
}

} // verus!
