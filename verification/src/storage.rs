//! The download history and the records it is made of.
//!
//! The history is a list of access records, newest first, capped at the
//! same number of entries the UI keeps in memory. Reading and writing the
//! history file is the caller's part; the changes to the list are made here.
use vstd::prelude::*;

use crate::order::{is_sorted_order, key_views, sorted_order};
use crate::text::{dec, hex_lower, push_dec, push_hex_lower, to_lowercase, unicode_lower};

verus! {

/// The most records the history keeps.
pub const HISTORY_LIMIT: usize = 500;

/// One access to a share, a site or a receive card.
#[derive(Debug, Clone)]
pub struct AccessRecord {
    pub id: String,
    pub share_id: String,
    pub share_name: String,
    pub path: String,
    pub bytes: u64,
    pub timestamp: i64,
    pub peer: String,
    pub user_agent: Option<String>,
    pub status: String,
}

/// A copy of an optional string.
pub fn copy_opt_string(s: &Option<String>) -> (r: Option<String>)
    ensures
        r == *s,
{
    match s {
        Some(x) => Some(x.clone()),
        None => None,
    }
}

impl AccessRecord {
    /// A copy of the record, equal to it.
    pub fn duplicate(&self) -> (r: AccessRecord)
        ensures
            r == *self,
    {
        AccessRecord {
            id: self.id.clone(),
            share_id: self.share_id.clone(),
            share_name: self.share_name.clone(),
            path: self.path.clone(),
            bytes: self.bytes,
            timestamp: self.timestamp,
            peer: self.peer.clone(),
            user_agent: copy_opt_string(&self.user_agent),
            status: self.status.clone(),
        }
    }
}

/// The history after `record` is added: it comes first, and only the newest
/// `HISTORY_LIMIT` records are kept.
pub open spec fn appended_spec(history: Seq<AccessRecord>, record: AccessRecord) -> Seq<
    AccessRecord,
> {
    let all = seq![record] + history;
    if all.len() > HISTORY_LIMIT {
        all.take(HISTORY_LIMIT as int)
    } else {
        all
    }
}

/// Adds one access record to the history, newest first, keeping at most
/// `HISTORY_LIMIT` records.
pub fn append_history(history: &mut Vec<AccessRecord>, record: &AccessRecord)
    ensures
        final(history)@ == appended_spec(old(history)@, *record),
{
    let copy = record.duplicate();
    history.insert(0, copy);
    history.truncate(HISTORY_LIMIT);
    assert(history@ =~= appended_spec(old(history)@, *record));
}

/// The history without the records whose id is `id`.
pub open spec fn without_id(history: Seq<AccessRecord>, id: Seq<char>) -> Seq<AccessRecord>
    decreases history.len(),
{
    if history.len() == 0 {
        history
    } else if history.last().id@ == id {
        without_id(history.drop_last(), id)
    } else {
        without_id(history.drop_last(), id).push(history.last())
    }
}

/// Removes every record whose id is `id`, keeping the others in order.
pub fn remove_history_record(history: &mut Vec<AccessRecord>, id: &str)
    ensures
        final(history)@ == without_id(old(history)@, id@),
{
    let mut kept: Vec<AccessRecord> = Vec::new();
    let mut i: usize = 0;
    while i < history.len()
        invariant
            i <= history@.len(),
            history@ == old(history)@,
            kept@ == without_id(history@.take(i as int), id@),
        decreases history.len() - i,
    {
        let ghost prefix = history@.take(i + 1);
        assert(prefix.drop_last() =~= history@.take(i as int));
        if !crate::text::str_eq(history[i].id.as_str(), id) {
            let copy = history[i].duplicate();
            kept.push(copy);
        }
        i = i + 1;
    }
    assert(history@.take(i as int) =~= history@);
    *history = kept;
}

/// After adding a record, it is the newest one and the older records follow
/// it in their order, up to the cap.
pub proof fn lemma_append_history_newest_first(history: Seq<AccessRecord>, record: AccessRecord)
    ensures
        appended_spec(history, record).len() == if history.len() + 1 > HISTORY_LIMIT {
            HISTORY_LIMIT as int
        } else {
            history.len() + 1int
        },
        appended_spec(history, record)[0] == record,
        forall|i: int|
            0 < i < appended_spec(history, record).len() ==> #[trigger] appended_spec(
                history,
                record,
            )[i] == history[i - 1],
{
}

/// After removing a record by id, no record with that id is left, and every
/// record with another id is still there.
pub proof fn lemma_remove_history_record(history: Seq<AccessRecord>, id: Seq<char>)
    ensures
        forall|i: int|
            0 <= i < without_id(history, id).len() ==> #[trigger] without_id(history, id)[i].id@
                != id,
        forall|i: int|
            0 <= i < history.len() && history[i].id@ != id ==> without_id(history, id).contains(
                #[trigger] history[i],
            ),
        without_id(history, id).len() <= history.len(),
    decreases history.len(),
{
    if history.len() > 0 {
        lemma_remove_history_record(history.drop_last(), id);
        let w = without_id(history.drop_last(), id);
        assert forall|i: int| 0 <= i < without_id(history, id).len() implies #[trigger] without_id(
            history,
            id,
        )[i].id@ != id by {
            if history.last().id@ != id {
                if i < w.len() {
                    assert(without_id(history, id)[i] == w[i]);
                    assert(without_id(history.drop_last(), id)[i].id@ != id);
                } else {
                    assert(without_id(history, id)[i] == history.last());
                }
            } else {
                assert(without_id(history, id)[i] == w[i]);
                assert(without_id(history.drop_last(), id)[i].id@ != id);
            }
        }
        assert forall|i: int|
            0 <= i < history.len() && history[i].id@ != id implies without_id(
            history,
            id,
        ).contains(#[trigger] history[i]) by {
            if i < history.len() - 1 {
                assert(history[i] == history.drop_last()[i]);
                assert(w.contains(history[i]));
                if history.last().id@ != id {
                    let k = choose|k: int| 0 <= k < w.len() && w[k] == history[i];
                    assert(w.push(history.last())[k] == history[i]);
                }
            } else {
                assert(without_id(history, id)[w.len() as int] == history[i]);
            }
        }
    }
}

// ---------------------------------------------------------------------------
// Time
// ---------------------------------------------------------------------------
/// Seconds since the Unix epoch according to the system clock, or `None`
/// when the clock is set before the epoch. The clock is read here, so
/// nothing is promised about the value.
#[verifier::external_body]
fn system_secs_since_epoch() -> (r: Option<u64>) {
    std::time::SystemTime::now().duration_since(std::time::UNIX_EPOCH).ok().map(|d| d.as_secs())
}

/// The timestamp recorded for an event, from the seconds since the epoch
/// (`None` when the clock is before the epoch, which records 0).
pub fn secs_to_timestamp(secs: Option<u64>) -> (r: i64)
    ensures
        r == match secs {
            Some(s) => s as i64,
            None => 0i64,
        },
{
    match secs {
        Some(s) => s as i64,
        None => 0,
    }
}

/// The current time in seconds since the Unix epoch (0 when the clock is
/// before the epoch). The clock can read anything, so the value is whatever
/// `secs_to_timestamp` makes of the reading.
pub fn now_secs() -> (r: i64) {
    secs_to_timestamp(system_secs_since_epoch())
}

// ---------------------------------------------------------------------------
// Records
// ---------------------------------------------------------------------------
/// The id of a download record: the time, the first byte and the length in
/// lower-case hexadecimal, separated by `-`.
pub open spec fn download_id_spec(now: i64, start: u64, length: u64) -> Seq<char> {
    hex_lower((now as u64) as nat) + "-"@ + hex_lower(start as nat) + "-"@ + hex_lower(
        length as nat,
    )
}

/// The record of a successful download of `length` bytes from `start` of
/// the file at `path`, shown as `display`, of share (or site) `share_id`.
pub fn download_record(
    now: i64,
    start: u64,
    length: u64,
    share_id: &str,
    display: &str,
    path: &str,
    peer: &str,
    user_agent: Option<String>,
) -> (r: AccessRecord)
    ensures
        r.id@ == download_id_spec(now, start, length),
        r.share_id@ == share_id@,
        r.share_name@ == display@,
        r.path@ == path@,
        r.bytes == length,
        r.timestamp == now,
        r.peer@ == peer@,
        r.user_agent == user_agent,
        r.status@ == "success"@,
{
    let mut id = String::new();
    push_hex_lower(&mut id, now as u64);
    id.append("-");
    push_hex_lower(&mut id, start);
    id.append("-");
    push_hex_lower(&mut id, length);
    assert(id@ =~= download_id_spec(now, start, length));
    AccessRecord {
        id,
        share_id: String::from_str(share_id),
        share_name: String::from_str(display),
        path: String::from_str(path),
        bytes: length,
        timestamp: now,
        peer: String::from_str(peer),
        user_agent,
        status: String::from_str("success"),
    }
}

/// Decimal representation of a signed number (`n.to_string()`).
pub open spec fn dec_i64(n: i64) -> Seq<char> {
    if n < 0 {
        seq!['-'] + dec((-(n as int)) as nat)
    } else {
        dec(n as nat)
    }
}

/// Appends the decimal representation of a signed number.
pub fn push_dec_i64(out: &mut String, n: i64)
    ensures
        final(out)@ == old(out)@ + dec_i64(n),
{
    if n < 0 {
        out.push('-');
        let magnitude: u64 = if n == i64::MIN {
            9223372036854775808u64
        } else {
            (-n) as u64
        };
        push_dec(out, magnitude);
    } else {
        push_dec(out, n as u64);
    }
    assert(out@ =~= old(out)@ + dec_i64(n));
}

/// The id of an upload record.
pub open spec fn upload_id_spec(now: i64, bytes: u64, receiver_id: Seq<char>) -> Seq<char> {
    "recv-"@ + dec_i64(now) + "-"@ + dec(bytes as nat) + "-"@ + receiver_id
}

/// The record of a successful upload of `bytes` bytes, saved at `path`
/// under the name `filename`, to the receive card `receiver_id`.
pub fn upload_record(
    now: i64,
    bytes: u64,
    receiver_id: &str,
    filename: &str,
    path: &str,
    peer: &str,
    user_agent: Option<String>,
) -> (r: AccessRecord)
    ensures
        r.id@ == upload_id_spec(now, bytes, receiver_id@),
        r.share_id@ == receiver_id@,
        r.share_name@ == filename@,
        r.path@ == path@,
        r.bytes == bytes,
        r.timestamp == now,
        r.peer@ == peer@,
        r.user_agent == user_agent,
        r.status@ == "success"@,
{
    let mut id = String::new();
    id.append("recv-");
    push_dec_i64(&mut id, now);
    id.append("-");
    push_dec(&mut id, bytes);
    id.append("-");
    id.append(receiver_id);
    assert(id@ =~= upload_id_spec(now, bytes, receiver_id@));
    AccessRecord {
        id,
        share_id: String::from_str(receiver_id),
        share_name: String::from_str(filename),
        path: String::from_str(path),
        bytes,
        timestamp: now,
        peer: String::from_str(peer),
        user_agent,
        status: String::from_str("success"),
    }
}

/// The directory that revealing `path` in the file manager opens: the
/// folder holding it when it is a file (`is_file`), else the path itself.
/// The parent is found with `std::path`; for a path that every platform
/// reads alike it is the text before the last `/`.
pub fn reveal_in_explorer(path: &str, is_file: bool) -> (r: String)
    ensures
        !is_file ==> r@ == path@,
        is_file && crate::paths::simple_path(path@) ==> r@ == crate::paths::parent_spec(path@),
{
    if is_file {
        match crate::paths::path_parent(path) {
            Some(p) => p,
            None => String::from_str(path),
        }
    } else {
        String::from_str(path)
    }
}

// ---------------------------------------------------------------------------
// Directory listings
// ---------------------------------------------------------------------------
/// The sort key of an entry of a listing: directories (rank 0) before
/// files (rank 1), then the lower-cased name.
pub open spec fn listing_key(entry: (String, bool, u64)) -> (i64, Seq<char>) {
    (if entry.1 { 0i64 } else { 1i64 }, unicode_lower(entry.0@))
}

/// The sort keys of the entries of a listing.
pub open spec fn listing_keys(entries: Seq<(String, bool, u64)>) -> Seq<(i64, Seq<char>)> {
    entries.map_values(|e: (String, bool, u64)| listing_key(e))
}

/// Orders the entries `(name, is_dir, size)` of a directory as listed:
/// directories first, then files, each group by lower-cased name, entries
/// with the same lower-cased name in the order they were read.
pub fn sort_listing(entries: &Vec<(String, bool, u64)>) -> (r: Vec<(String, bool, u64)>)
    ensures
        exists|p: Seq<usize>|
            #[trigger] is_sorted_order(listing_keys(entries@), p) && r@.len() == p.len() && forall|
                i: int,
            |
                0 <= i < p.len() ==> #[trigger] r@[i] == entries@[p[i] as int],
{
    let mut keys: Vec<(i64, String)> = Vec::new();
    let mut i: usize = 0;
    while i < entries.len()
        invariant
            i <= entries@.len(),
            keys@.len() == i,
            forall|j: int| 0 <= j < i ==> #[trigger] key_views(keys@)[j] == listing_key(entries@[j]),
        decreases entries.len() - i,
    {
        let rank: i64 = if entries[i].1 {
            0
        } else {
            1
        };
        let lowered = to_lowercase(entries[i].0.as_str());
        let ghost before = keys@;
        keys.push((rank, lowered));
        proof {
            assert forall|j: int| 0 <= j < i + 1 implies #[trigger] key_views(keys@)[j] == listing_key(
                entries@[j],
            ) by {
                if j < i {
                    assert(keys@[j] == before[j]);
                    assert(key_views(before)[j] == listing_key(entries@[j]));
                }
            }
        }
        i = i + 1;
    }
    assert(key_views(keys@) =~= listing_keys(entries@));
    let order = sorted_order(&keys);
    let mut out: Vec<(String, bool, u64)> = Vec::new();
    let mut j: usize = 0;
    while j < order.len()
        invariant
            is_sorted_order(listing_keys(entries@), order@),
            j <= order@.len(),
            out@.len() == j,
            forall|a: int| 0 <= a < j ==> #[trigger] out@[a] == entries@[order@[a] as int],
        decreases order.len() - j,
    {
        let e = &entries[order[j]];
        out.push((e.0.clone(), e.1, e.2));
        j = j + 1;
    }
    out
}

} // verus!
