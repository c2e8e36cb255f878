//! The waitlist: who is told first when a lot frees up on a day.

use vstd::prelude::*;
use crate::models::WaitlistEntry;
use crate::ids::new_id;
use crate::db::Database;

verus! {

/// A message for the notifier that the caller delivers.
#[derive(Debug, PartialEq, Eq)]
pub enum Notice {
    /// A booking was confirmed.
    BookingConfirmed { user_id: String, booking_id: String },
    /// A confirmed booking starts soon.
    Reminder { user_id: String, booking_id: String },
    /// A booking was released for want of a check-in.
    AutoReleased { user_id: String, booking_id: String },
    /// A slot is free on the day the waitlist entry asked for.
    WaitlistSlotAvailable { user_id: String, entry_id: String, lot_id: String, date: u64 },
}

/// Entry `e` waits for lot `lot` on day `date`.
pub open spec fn in_group(e: WaitlistEntry, lot: Seq<char>, date: int) -> bool {
    e.lot_id@ == lot && e.date == date
}

/// Entry `id` is first in line for `(lot, date)`: no entry of that group was made earlier.
pub open spec fn is_head(w: Map<Seq<char>, WaitlistEntry>, id: Seq<char>, lot: Seq<char>, date: int) -> bool {
    &&& w.contains_key(id)
    &&& in_group(w[id], lot, date)
    &&& forall|k: Seq<char>| #[trigger] w.contains_key(k) && in_group(w[k], lot, date) ==> w[id].created_at
        <= w[k].created_at
}

/// Every entry first in line for `(lot, date)` has been notified (true of an empty group).
pub open spec fn heads_notified(w: Map<Seq<char>, WaitlistEntry>, lot: Seq<char>, date: int) -> bool {
    forall|h: Seq<char>| #[trigger] is_head(w, h, lot, date) ==> w[h].notified
}

/// Entry `e` with its notified flag set.
pub open spec fn marked(e: WaitlistEntry) -> WaitlistEntry {
    WaitlistEntry { notified: true, ..e }
}

/// The group `(lot, date)` is empty, or an entry first in line has been notified.
pub open spec fn group_served(w: Map<Seq<char>, WaitlistEntry>, lot: Seq<char>, date: int) -> bool {
    ||| forall|k: Seq<char>| #[trigger] w.contains_key(k) ==> !in_group(w[k], lot, date)
    ||| exists|h: Seq<char>| #[trigger] is_head(w, h, lot, date) && w[h].notified
}

/// The notice that tells entry `e` of a free slot.
pub open spec fn slot_notice(e: WaitlistEntry) -> Notice {
    Notice::WaitlistSlotAvailable { user_id: e.user_id, entry_id: e.id, lot_id: e.lot_id, date: e.date }
}

/// One cascade for `(lot, date)` took waitlist `w0` to `w1` and gave notice `r`:
/// if an entry first in line is still unnotified, one such entry is marked and
/// told; otherwise nothing changes. No entry is removed.
pub open spec fn cascade_step(
    w0: Map<Seq<char>, WaitlistEntry>,
    w1: Map<Seq<char>, WaitlistEntry>,
    lot: Seq<char>,
    date: int,
    r: Option<Notice>,
) -> bool {
    &&& r is None <==> heads_notified(w0, lot, date)
    &&& r is None ==> w1 == w0 && group_served(w0, lot, date)
    &&& r is Some ==> exists|h: Seq<char>|
        #[trigger] is_head(w0, h, lot, date) && !w0[h].notified && w1 == w0.insert(h, marked(w0[h]))
            && r == Some(slot_notice(w0[h]))
}

/// Runs the waitlist cascade for `(lot_id, date)`: the entry first in line
/// (earliest `created_at`), if not yet notified, is marked and a notice for it
/// returned. The entry stays in the list.
pub fn waitlist_cascade(db: &mut Database, lot_id: &String, date: u64) -> (r: Option<Notice>)
    requires
        old(db).wf(),
    ensures
        final(db).wf(),
        Database::same_accounts(old(db), final(db)),
        final(db).slots() == old(db).slots(),
        final(db).bookings() == old(db).bookings(),
        cascade_step(old(db).waitlist(), final(db).waitlist(), lot_id@, date as int, r),
{
    let ghost w = db.waitlist();
    let keys = db.waitlist_ids();
    let mut best: Option<usize> = None;
    let mut best_created: u64 = 0;
    let mut best_notified: bool = false;
    let mut i: usize = 0;
    while i < keys.len()
        invariant
            db.wf(),
            db.waitlist() == w,
            i <= keys@.len(),
            forall|j: int| 0 <= j < keys@.len() ==> w.contains_key(#[trigger] keys@[j]@),
            forall|k: Seq<char>| #[trigger] w.contains_key(k) ==> exists|j: int| 0 <= j < keys@.len() && #[trigger] keys@[j]@ == k,
            best is None ==> forall|j: int| 0 <= j < i ==> !in_group(w[#[trigger] keys@[j]@], lot_id@, date as int),
            best matches Some(b) ==> {
                &&& b < i
                &&& in_group(w[keys@[b as int]@], lot_id@, date as int)
                &&& w[keys@[b as int]@].created_at == best_created
                &&& w[keys@[b as int]@].notified == best_notified
                &&& forall|j: int| 0 <= j < i && in_group(w[#[trigger] keys@[j]@], lot_id@, date as int) ==> best_created <= w[keys@[j]@].created_at
                &&& forall|j: int| 0 <= j < i && in_group(w[#[trigger] keys@[j]@], lot_id@, date as int)
                    && w[keys@[j]@].created_at == best_created && !w[keys@[j]@].notified ==> !best_notified
            },
        decreases keys@.len() - i,
    {
        assert(w.contains_key(keys@[i as int]@));
        let ghost b0 = best;
        let ghost c0 = best_created;
        let ghost n0 = best_notified;
        match db.get_waitlist_entry(&keys[i]) {
            Some(e) => {
                if e.lot_id == *lot_id && e.date == date {
                    let take = match best {
                        None => true,
                        Some(_) => e.created_at < best_created || (e.created_at == best_created && best_notified && !e.notified),
                    };
                    if take {
                        best = Some(i);
                        best_created = e.created_at;
                        best_notified = e.notified;
                    }
                }
            },
            None => {},
        }
        assert(best is None ==> forall|j: int| 0 <= j < i + 1 ==> !in_group(w[#[trigger] keys@[j]@], lot_id@, date as int));
        assert forall|j: int| 0 <= j < i + 1 && in_group(w[#[trigger] keys@[j]@], lot_id@, date as int) && best is Some
            implies best_created <= w[keys@[j]@].created_at
            && (w[keys@[j]@].created_at == best_created && !w[keys@[j]@].notified ==> !best_notified) by {
            if j < i {
                if b0 is None {
                    assert(!in_group(w[keys@[j]@], lot_id@, date as int));
                }
            }
        }
        i = i + 1;
    }
    match best {
        None => {
            assert forall|h: Seq<char>| #[trigger] is_head(w, h, lot_id@, date as int) implies w[h].notified by {
                let j = choose|j: int| 0 <= j < keys@.len() && #[trigger] keys@[j]@ == h;
                assert(!in_group(w[keys@[j]@], lot_id@, date as int));
            }
            None
        },
        Some(b) => {
            let ghost hk = keys@[b as int]@;
            assert(is_head(w, hk, lot_id@, date as int)) by {
                assert forall|k: Seq<char>| #[trigger] w.contains_key(k) && in_group(w[k], lot_id@, date as int) implies w[hk].created_at <= w[k].created_at by {
                    let j = choose|j: int| 0 <= j < keys@.len() && #[trigger] keys@[j]@ == k;
                    assert(in_group(w[keys@[j]@], lot_id@, date as int));
                }
            }
            if best_notified {
                assert forall|h: Seq<char>| #[trigger] is_head(w, h, lot_id@, date as int) implies w[h].notified by {
                    let j = choose|j: int| 0 <= j < keys@.len() && #[trigger] keys@[j]@ == h;
                    assert(in_group(w[keys@[j]@], lot_id@, date as int));
                    assert(w[h].created_at <= w[hk].created_at);
                }
                None
            } else {
                let entry = db.get_waitlist_entry(&keys[b]);
                match entry {
                    Some(e) => {
                        let mut updated = e.clone();
                        updated.notified = true;
                        let notice = Notice::WaitlistSlotAvailable {
                            user_id: e.user_id.clone(),
                            entry_id: e.id.clone(),
                            lot_id: e.lot_id.clone(),
                            date: e.date,
                        };
                        assert(updated.id@ == hk);
                        assert(updated == marked(w[hk]));
                        db.save_waitlist_entry(updated);
                        Some(notice)
                    },
                    None => None,
                }
            }
        },
    }
}




/// Where an entry made at `created` goes in `list`, kept in `created_at`
/// order: after every entry made no later.
fn insertion_point(list: &Vec<WaitlistEntry>, created: u64) -> (pos: usize)
    ensures
        pos <= list@.len(),
        forall|a: int| pos <= a < list@.len() ==> #[trigger] list@[a].created_at > created,
        pos > 0 ==> list@[pos - 1].created_at <= created,
{
    let mut pos: usize = list.len();
    while pos > 0 && list[pos - 1].created_at > created
        invariant
            pos <= list@.len(),
            forall|a: int| pos <= a < list@.len() ==> #[trigger] list@[a].created_at > created,
        decreases pos,
    {
        pos = pos - 1;
    }
    pos
}

/// Entry `e` waits for lot `lot`, on day `date` when a day is given.
pub open spec fn listed(e: WaitlistEntry, lot: Seq<char>, date: Option<u64>) -> bool {
    e.lot_id@ == lot && match date {
        Some(d) => e.date == d,
        None => true,
    }
}

/// The listing's loop facts for the first `i` keys, held by `prev`, carry
/// over to `prev` with entry `e` (the one under key `i`) inserted at `pos`.
proof fn lemma_insert_step(
    w: Map<Seq<char>, WaitlistEntry>,
    lot: Seq<char>,
    date: Option<u64>,
    keys: Seq<String>,
    i: int,
    prev: Seq<WaitlistEntry>,
    e: WaitlistEntry,
    pos: int,
)
    requires
        0 <= i < keys.len(),
        0 <= pos <= prev.len(),
        w.contains_key(keys[i]@),
        w[keys[i]@] == e,
        e.id@ == keys[i]@,
        listed(e, lot, date),
        forall|a: int| pos <= a < prev.len() ==> #[trigger] prev[a].created_at > e.created_at,
        pos > 0 ==> prev[pos - 1].created_at <= e.created_at,
        forall|b: int, c: int| 0 <= b < keys.len() && 0 <= c < keys.len() && #[trigger] keys[b]@ == #[trigger] keys[c]@ ==> b == c,
        forall|a: int| 0 <= a < prev.len() ==> w.contains_key(#[trigger] prev[a].id@) && w[prev[a].id@] == prev[a]
            && listed(prev[a], lot, date),
        forall|j: int| 0 <= j < i && listed(w[#[trigger] keys[j]@], lot, date) ==> exists|a: int|
            0 <= a < prev.len() && #[trigger] prev[a].id@ == keys[j]@,
        forall|a: int, c: int| 0 <= a < c < prev.len() ==> #[trigger] prev[a].created_at <= #[trigger] prev[c].created_at,
        forall|a: int, j: int| 0 <= a < prev.len() && i <= j < keys.len() ==> #[trigger] keys[j]@ != #[trigger] prev[a].id@,
        forall|a: int, c: int| 0 <= a < prev.len() && 0 <= c < prev.len() && #[trigger] prev[a].id@ == #[trigger] prev[c].id@ ==> a == c,
    ensures
        ({
            let out = prev.insert(pos, e);
            &&& forall|a: int| 0 <= a < out.len() ==> w.contains_key(#[trigger] out[a].id@) && w[out[a].id@] == out[a]
                && listed(out[a], lot, date)
            &&& forall|j: int| 0 <= j < i + 1 && listed(w[#[trigger] keys[j]@], lot, date) ==> exists|a: int|
                0 <= a < out.len() && #[trigger] out[a].id@ == keys[j]@
            &&& forall|a: int, c: int| 0 <= a < c < out.len() ==> #[trigger] out[a].created_at <= #[trigger] out[c].created_at
            &&& forall|a: int, j: int| 0 <= a < out.len() && i + 1 <= j < keys.len() ==> #[trigger] keys[j]@ != #[trigger] out[a].id@
            &&& forall|a: int, c: int| 0 <= a < out.len() && 0 <= c < out.len() && #[trigger] out[a].id@ == #[trigger] out[c].id@ ==> a == c
        }),
{
    let out = prev.insert(pos, e);
    assert forall|a: int| 0 <= a < out.len() implies out[a] == (if a < pos { prev[a] } else if a == pos { e } else { prev[a - 1] }) by {}
    assert forall|a: int| 0 <= a < out.len() implies w.contains_key(#[trigger] out[a].id@) && w[out[a].id@] == out[a]
        && listed(out[a], lot, date) by {
        if a < pos {
            assert(out[a] == prev[a]);
        } else if a > pos {
            assert(out[a] == prev[a - 1]);
        }
    }
    assert forall|j: int| 0 <= j < i + 1 && listed(w[#[trigger] keys[j]@], lot, date) implies exists|a: int|
        0 <= a < out.len() && #[trigger] out[a].id@ == keys[j]@ by {
        if j < i {
            let a = choose|a: int| 0 <= a < prev.len() && #[trigger] prev[a].id@ == keys[j]@;
            if a < pos {
                assert(out[a] == prev[a]);
            } else {
                assert(out[a + 1] == prev[a]);
            }
        } else {
            assert(out[pos].id@ == keys[j]@);
        }
    }
    assert forall|a: int, c: int| 0 <= a < c < out.len() implies #[trigger] out[a].created_at <= #[trigger] out[c].created_at by {
        if pos > 0 && a < pos {
            assert(prev[a].created_at <= prev[pos - 1].created_at || a == pos - 1);
        }
        if a < pos && c < pos {
            assert(out[a] == prev[a] && out[c] == prev[c]);
        } else if a < pos && c == pos {
            assert(out[a] == prev[a]);
        } else if a < pos && c > pos {
            assert(out[a] == prev[a] && out[c] == prev[c - 1]);
        } else if a == pos {
            assert(out[c] == prev[c - 1]);
        } else {
            assert(out[a] == prev[a - 1] && out[c] == prev[c - 1]);
        }
    }
    assert forall|a: int, j: int| 0 <= a < out.len() && i + 1 <= j < keys.len() implies #[trigger] keys[j]@ != #[trigger] out[a].id@ by {
        if a < pos {
            assert(out[a] == prev[a]);
        } else if a > pos {
            assert(out[a] == prev[a - 1]);
        }
    }
    assert forall|a: int, c: int| 0 <= a < out.len() && 0 <= c < out.len() && #[trigger] out[a].id@ == #[trigger] out[c].id@ implies a == c by {
        let a0 = if a < pos { a } else { a - 1 };
        let c0 = if c < pos { c } else { c - 1 };
        if a != pos && c != pos {
            assert(out[a] == prev[a0] && out[c] == prev[c0]);
        } else if a == pos && c != pos {
            assert(out[c] == prev[c0]);
            assert(keys[i]@ != prev[c0].id@);
        } else if c == pos && a != pos {
            assert(out[a] == prev[a0]);
            assert(keys[i]@ != prev[a0].id@);
        }
    }
}

/// The entries of lot `lot_id` (for day `date` only, when one is given),
/// earliest `created_at` first, each once; entries made at the same instant
/// keep the order in which they were met.
pub fn list_waitlist_by_lot(db: &Database, lot_id: &String, date: Option<u64>) -> (r: Vec<WaitlistEntry>)
    requires
        db.wf(),
    ensures
        forall|i: int| 0 <= i < r@.len() ==> db.waitlist().contains_key(#[trigger] r@[i].id@)
            && db.waitlist()[r@[i].id@] == r@[i] && listed(r@[i], lot_id@, date),
        forall|k: Seq<char>| #[trigger] db.waitlist().contains_key(k) && listed(db.waitlist()[k], lot_id@, date)
            ==> exists|i: int| 0 <= i < r@.len() && #[trigger] r@[i].id@ == k,
        forall|i: int, j: int| 0 <= i < j < r@.len() ==> #[trigger] r@[i].created_at <= #[trigger] r@[j].created_at,
        forall|i: int, j: int| 0 <= i < r@.len() && 0 <= j < r@.len() && #[trigger] r@[i].id@ == #[trigger] r@[j].id@ ==> i == j,
{
    proof { db.lemma_stored_ids(); }
    let keys = db.waitlist_ids();
    let mut out: Vec<WaitlistEntry> = Vec::new();
    let mut i: usize = 0;
    while i < keys.len()
        invariant
            db.wf(),
            i <= keys@.len(),
            forall|j: int| 0 <= j < keys@.len() ==> db.waitlist().contains_key(#[trigger] keys@[j]@),
            forall|k: Seq<char>| #[trigger] db.waitlist().contains_key(k) ==> exists|j: int| 0 <= j < keys@.len() && #[trigger] keys@[j]@ == k,
            forall|a: int| 0 <= a < out@.len() ==> db.waitlist().contains_key(#[trigger] out@[a].id@)
                && db.waitlist()[out@[a].id@] == out@[a] && listed(out@[a], lot_id@, date),
            forall|j: int| 0 <= j < i && listed(db.waitlist()[#[trigger] keys@[j]@], lot_id@, date) ==> exists|a: int|
                0 <= a < out@.len() && #[trigger] out@[a].id@ == keys@[j]@,
            forall|a: int, c: int| 0 <= a < c < out@.len() ==> #[trigger] out@[a].created_at <= #[trigger] out@[c].created_at,
            forall|k: Seq<char>| #[trigger] db.waitlist().contains_key(k) ==> db.waitlist()[k].id@ == k,
            forall|b: int, c: int| 0 <= b < keys@.len() && 0 <= c < keys@.len() && #[trigger] keys@[b]@ == #[trigger] keys@[c]@ ==> b == c,
            forall|a: int, j: int| 0 <= a < out@.len() && i <= j < keys@.len() ==> #[trigger] keys@[j]@ != #[trigger] out@[a].id@,
            forall|a: int, c: int| 0 <= a < out@.len() && 0 <= c < out@.len() && #[trigger] out@[a].id@ == #[trigger] out@[c].id@ ==> a == c,
        decreases keys@.len() - i,
    {
        assert(db.waitlist().contains_key(keys@[i as int]@));
        match db.get_waitlist_entry(&keys[i]) {
            Some(e) => {
                let wanted = match date {
                    Some(d) => e.date == d,
                    None => true,
                };
                if e.lot_id == *lot_id && wanted {
                    let pos = insertion_point(&out, e.created_at);
                    let ghost prev = out@;
                    proof { lemma_insert_step(db.waitlist(), lot_id@, date, keys@, i as int, prev, *e, pos as int); }
                    out.insert(pos, e.clone());
                    assert(out@ == prev.insert(pos as int, *e));
                }
            },
            None => {},
        }
        i = i + 1;
    }
    assert forall|k: Seq<char>| #[trigger] db.waitlist().contains_key(k) && listed(db.waitlist()[k], lot_id@, date)
        implies exists|a: int| 0 <= a < out@.len() && #[trigger] out@[a].id@ == k by {
        let j = choose|j: int| 0 <= j < keys@.len() && #[trigger] keys@[j]@ == k;
        assert(listed(db.waitlist()[keys@[j]@], lot_id@, date));
    }
    out
}

/// Puts `user_id` on the waitlist of lot `lot_id` for day `date`, at `now`,
/// under a fresh id. Refused (`None`) when the lot does not exist.
pub fn join_waitlist(db: &mut Database, lot_id: &String, user_id: &String, date: u64, now: u64) -> (r: Option<WaitlistEntry>)
    requires
        old(db).wf(),
    ensures
        final(db).wf(),
        Database::same_accounts(old(db), final(db)),
        final(db).slots() == old(db).slots(),
        final(db).bookings() == old(db).bookings(),
        r is None <==> !old(db).lots().contains_key(lot_id@),
        r is None ==> final(db).waitlist() == old(db).waitlist(),
        r matches Some(e) ==> e.lot_id == lot_id && e.user_id == user_id && e.date == date && e.created_at == now
            && !e.notified && final(db).waitlist() == old(db).waitlist().insert(e.id@, e),
{
    match db.get_parking_lot(lot_id) {
        Some(_) => {},
        None => return None,
    }
    let e = WaitlistEntry {
        id: new_id(),
        lot_id: lot_id.clone(),
        user_id: user_id.clone(),
        date,
        created_at: now,
        notified: false,
    };
    db.save_waitlist_entry(e.clone());
    Some(e)
}


/// First in, first out: with three unnotified entries `a`, `b`, `c` of one
/// group, made in that order, a cascade tells `a` alone; once `a` is removed,
/// the next cascade tells `b`.
pub proof fn lemma_waitlist_fifo(
    w0: Map<Seq<char>, WaitlistEntry>,
    w1: Map<Seq<char>, WaitlistEntry>,
    w2: Map<Seq<char>, WaitlistEntry>,
    lot: Seq<char>,
    date: int,
    a: Seq<char>,
    b: Seq<char>,
    c: Seq<char>,
    first: Option<Notice>,
    second: Option<Notice>,
)
    requires
        w0.contains_key(a) && w0.contains_key(b) && w0.contains_key(c),
        in_group(w0[a], lot, date) && in_group(w0[b], lot, date) && in_group(w0[c], lot, date),
        !w0[a].notified && !w0[b].notified && !w0[c].notified,
        w0[a].created_at < w0[b].created_at < w0[c].created_at,
        forall|k: Seq<char>| #[trigger] w0.contains_key(k) && in_group(w0[k], lot, date) ==> k == a || k == b || k == c,
        cascade_step(w0, w1, lot, date, first),
        cascade_step(w1.remove(a), w2, lot, date, second),
    ensures
        first == Some(slot_notice(w0[a])),
        w1 == w0.insert(a, marked(w0[a])),
        second == Some(slot_notice(w0[b])),
        w2 == w1.remove(a).insert(b, marked(w0[b])),
{
    assert(is_head(w0, a, lot, date));
    assert(!heads_notified(w0, lot, date));
    let h = choose|h: Seq<char>| #[trigger] is_head(w0, h, lot, date) && !w0[h].notified && w1 == w0.insert(h, marked(w0[h]))
        && first == Some(slot_notice(w0[h]));
    assert(w0[h].created_at <= w0[a].created_at);
    assert(h == a);
    let v = w1.remove(a);
    assert(b != a && c != a);
    assert(v.contains_key(b) && v[b] == w0[b]);
    assert(v.contains_key(c) && v[c] == w0[c]);
    assert(is_head(v, b, lot, date)) by {
        assert forall|k: Seq<char>| #[trigger] v.contains_key(k) && in_group(v[k], lot, date) implies v[b].created_at <= v[k].created_at by {
            assert(k != a);
            assert(w1[k] == w0[k]);
            assert(w0.contains_key(k));
        }
    }
    assert(!heads_notified(v, lot, date));
    let g = choose|g: Seq<char>| #[trigger] is_head(v, g, lot, date) && !v[g].notified && w2 == v.insert(g, marked(v[g]))
        && second == Some(slot_notice(v[g]));
    assert(v[g].created_at <= v[b].created_at);
    assert(v.contains_key(g) && in_group(v[g], lot, date));
    assert(g != a);
    assert(w0.contains_key(g) && w0[g] == v[g]);
    assert(g == b);
}

} // verus!
