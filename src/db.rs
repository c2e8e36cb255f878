//! The repository: one table per entity, with the secondary indices kept
//! in step with the primary rows inside each operation.

use vstd::prelude::*;
use crate::models::{Booking, BookingStatus, OwnedVehicle, ParkingLot, ParkingSlot, Session, SlotStatus, User, WaitlistEntry};
use crate::table::Table;
use crate::ids::new_id;
use crate::cipher::{lemma_hex_round_trip, hex_decode, hex_decoded, hex_encode, pbkdf2_sha256_key, random_bytes, Cipher, Codec, KDF_ROUNDS, SALT_LEN};

verus! {

/// Why a write to the repository was refused.
#[derive(Clone, Copy, Debug, PartialEq, Eq, Structural)]
pub enum StoreError {
    /// No record under the given key.
    NotFound,
    /// The write would break a uniqueness rule.
    Conflict,
}

/// Row counts of the main tables.
#[derive(Clone, Copy, Debug, PartialEq, Eq, Structural)]
pub struct DatabaseStats {
    pub users: u64,
    pub bookings: u64,
    pub parking_lots: u64,
    pub slots: u64,
    pub sessions: u64,
    pub vehicles: u64,
}

/// Settings key that records a finished first-run setup.
pub const SETTING_SETUP_COMPLETED: &'static str = "setup_completed";

/// Settings key of the stored layout version.
pub const SETTING_DB_VERSION: &'static str = "db_version";

/// Settings key of the hex-encoded encryption salt.
pub const SETTING_ENCRYPTION_SALT: &'static str = "encryption_salt";

/// The layout version that this library writes.
pub const CURRENT_DB_VERSION: &'static str = "2";

/// How the store is opened.
#[derive(Clone, Debug)]
pub struct DatabaseConfig {
    /// Directory that holds the store's file.
    pub path: String,
    pub encryption_enabled: bool,
    pub passphrase: Option<String>,
    pub create_if_missing: bool,
}

/// Why the store could not be opened.
#[derive(Clone, Copy, Debug, PartialEq, Eq, Structural)]
pub enum OpenError {
    /// Encryption is enabled but no passphrase was given.
    MissingPassphrase,
    /// The stored salt is not hexadecimal text.
    InvalidSalt,
}

/// The store of all records.
pub struct Database {
    users: Table<User>,
    users_by_username: Table<String>,
    users_by_email: Table<String>,
    sessions: Table<Session>,
    lots: Table<ParkingLot>,
    slots: Table<ParkingSlot>,
    bookings: Table<Booking>,
    waitlist: Table<WaitlistEntry>,
    settings: Table<String>,
    vehicles: Table<OwnedVehicle>,
}

/// Booking `b` holds slot `slot`: it references it and is `Confirmed` or `Active`.
pub open spec fn holds_slot(b: Booking, slot: Seq<char>) -> bool {
    b.slot_id@ == slot && (b.status == BookingStatus::Confirmed || b.status == BookingStatus::Active)
}

/// Some booking of `bookings` holds slot `slot`.
pub open spec fn slot_taken(bookings: Map<Seq<char>, Booking>, slot: Seq<char>) -> bool {
    exists|k: Seq<char>| #[trigger] bookings.contains_key(k) && holds_slot(bookings[k], slot)
}

/// No slot is held by two bookings.
pub open spec fn single_occupancy(bookings: Map<Seq<char>, Booking>) -> bool {
    forall|a: Seq<char>, c: Seq<char>|
        #[trigger] bookings.contains_key(a) && #[trigger] bookings.contains_key(c) && holds_slot(bookings[a], bookings[c].slot_id@)
            && holds_slot(bookings[c], bookings[c].slot_id@) ==> a == c
}

/// A session is live strictly before its expiry instant.
pub open spec fn session_live(s: Session, now: int) -> bool {
    now < s.expires_at
}

impl Database {
    /// Users by id.
    pub closed spec fn users(&self) -> Map<Seq<char>, User> {
        self.users@
    }

    /// Username index: username to user id.
    pub closed spec fn usernames(&self) -> Map<Seq<char>, String> {
        self.users_by_username@
    }

    /// Email index: email to user id.
    pub closed spec fn emails(&self) -> Map<Seq<char>, String> {
        self.users_by_email@
    }

    /// Sessions by token.
    pub closed spec fn sessions(&self) -> Map<Seq<char>, Session> {
        self.sessions@
    }

    /// Lots by id.
    pub closed spec fn lots(&self) -> Map<Seq<char>, ParkingLot> {
        self.lots@
    }

    /// Slots by id.
    pub closed spec fn slots(&self) -> Map<Seq<char>, ParkingSlot> {
        self.slots@
    }

    /// Bookings by id.
    pub closed spec fn bookings(&self) -> Map<Seq<char>, Booking> {
        self.bookings@
    }

    /// Waitlist entries by id.
    pub closed spec fn waitlist(&self) -> Map<Seq<char>, WaitlistEntry> {
        self.waitlist@
    }

    /// Settings by key.
    pub closed spec fn settings(&self) -> Map<Seq<char>, String> {
        self.settings@
    }

    /// Vehicles by id.
    pub closed spec fn vehicles(&self) -> Map<Seq<char>, OwnedVehicle> {
        self.vehicles@
    }

    /// Both indices point at existing users whose fields match, and every
    /// user is reachable through both.
    pub open spec fn indices_consistent(
        users: Map<Seq<char>, User>,
        names: Map<Seq<char>, String>,
        emails: Map<Seq<char>, String>,
    ) -> bool {
        &&& forall|n: Seq<char>| #[trigger] names.contains_key(n) ==> users.contains_key(names[n]@)
            && users[names[n]@].username@ == n
        &&& forall|e: Seq<char>| #[trigger] emails.contains_key(e) ==> users.contains_key(emails[e]@)
            && users[emails[e]@].email@ == e
        &&& forall|id: Seq<char>| #[trigger] users.contains_key(id) ==> users[id].id@ == id
            && names.contains_key(users[id].username@) && names[users[id].username@]@ == id
            && emails.contains_key(users[id].email@) && emails[users[id].email@]@ == id
    }

    /// Well-formedness: tables well formed, indices consistent, and each record stored under its own id.
    pub closed spec fn wf(&self) -> bool {
        &&& self.users.wf()
        &&& self.users_by_username.wf()
        &&& self.users_by_email.wf()
        &&& self.sessions.wf()
        &&& self.lots.wf()
        &&& self.slots.wf()
        &&& self.bookings.wf()
        &&& self.waitlist.wf()
        &&& self.settings.wf()
        &&& self.vehicles.wf()
        &&& forall|id: Seq<char>| #[trigger] self.vehicles@.contains_key(id) ==> self.vehicles@[id].id@ == id
        &&& Self::indices_consistent(self.users@, self.users_by_username@, self.users_by_email@)
        &&& forall|id: Seq<char>| #[trigger] self.bookings@.contains_key(id) ==> self.bookings@[id].id@ == id
        &&& forall|id: Seq<char>| #[trigger] self.slots@.contains_key(id) ==> self.slots@[id].id@ == id
        &&& forall|id: Seq<char>| #[trigger] self.lots@.contains_key(id) ==> self.lots@[id].id@ == id
        &&& forall|id: Seq<char>| #[trigger] self.waitlist@.contains_key(id) ==> self.waitlist@[id].id@ == id
    }

    /// Every record is stored under its own id.
    pub proof fn lemma_stored_ids(&self)
        requires
            self.wf(),
        ensures
            forall|id: Seq<char>| #[trigger] self.users().contains_key(id) ==> self.users()[id].id@ == id,
            forall|id: Seq<char>| #[trigger] self.bookings().contains_key(id) ==> self.bookings()[id].id@ == id,
            forall|id: Seq<char>| #[trigger] self.slots().contains_key(id) ==> self.slots()[id].id@ == id,
            forall|id: Seq<char>| #[trigger] self.lots().contains_key(id) ==> self.lots()[id].id@ == id,
            forall|id: Seq<char>| #[trigger] self.waitlist().contains_key(id) ==> self.waitlist()[id].id@ == id,
            forall|id: Seq<char>| #[trigger] self.vehicles().contains_key(id) ==> self.vehicles()[id].id@ == id,
    {
    }

    /// The username and email indices agree with the users table.
    pub proof fn lemma_indices(&self)
        requires
            self.wf(),
        ensures
            Self::indices_consistent(self.users(), self.usernames(), self.emails()),
    {
    }

    /// Every stored user has a distinct username and a distinct email.
    pub proof fn lemma_unique_fields(&self, a: Seq<char>, b: Seq<char>)
        requires
            self.wf(),
            self.users().contains_key(a),
            self.users().contains_key(b),
            a != b,
        ensures
            self.users()[a].username@ != self.users()[b].username@,
            self.users()[a].email@ != self.users()[b].email@,
    {
    }

    /// The user that the username index leads to.
    pub open spec fn user_by_username(&self, name: Seq<char>) -> Option<User> {
        if self.usernames().contains_key(name) {
            Some(self.users()[self.usernames()[name]@])
        } else {
            None
        }
    }

    /// The user that the email index leads to.
    pub open spec fn user_by_email(&self, email: Seq<char>) -> Option<User> {
        if self.emails().contains_key(email) {
            Some(self.users()[self.emails()[email]@])
        } else {
            None
        }
    }

    /// An empty store.
    pub fn new() -> (r: Self)
        ensures
            r.wf(),
            r.users() == Map::<Seq<char>, User>::empty(),
            r.sessions() == Map::<Seq<char>, Session>::empty(),
            r.lots() == Map::<Seq<char>, ParkingLot>::empty(),
            r.slots() == Map::<Seq<char>, ParkingSlot>::empty(),
            r.bookings() == Map::<Seq<char>, Booking>::empty(),
            r.waitlist() == Map::<Seq<char>, WaitlistEntry>::empty(),
            r.settings() == Map::<Seq<char>, String>::empty(),
            r.vehicles() == Map::<Seq<char>, OwnedVehicle>::empty(),
    {
        Database {
            users: Table::new(),
            users_by_username: Table::new(),
            users_by_email: Table::new(),
            sessions: Table::new(),
            lots: Table::new(),
            slots: Table::new(),
            bookings: Table::new(),
            waitlist: Table::new(),
            settings: Table::new(),
            vehicles: Table::new(),
        }
    }

    /// Every table but the user tables and their indices is the same in `a` and `b`.
    pub open spec fn same_but_users(a: &Self, b: &Self) -> bool {
        &&& a.sessions() == b.sessions()
        &&& a.lots() == b.lots()
        &&& a.slots() == b.slots()
        &&& a.bookings() == b.bookings()
        &&& a.waitlist() == b.waitlist()
        &&& a.settings() == b.settings()
        &&& a.vehicles() == b.vehicles()
    }

    /// Saving `u` would give its username or email to a second account.
    pub open spec fn user_conflict(&self, u: User) -> bool {
        ||| (self.usernames().contains_key(u.username@) && self.usernames()[u.username@]@ != u.id@)
        ||| (self.emails().contains_key(u.email@) && self.emails()[u.email@]@ != u.id@)
    }

    /// Stores `user` under its id and points both indices at it, in one step.
    /// Refused with `Conflict` when another account holds its username or email.
    pub fn save_user(&mut self, user: User) -> (r: Result<(), StoreError>)
        requires
            old(self).wf(),
        ensures
            final(self).wf(),
            Self::same_but_users(old(self), final(self)),
            r is Err <==> old(self).user_conflict(user),
            r is Err ==> r == Err::<(), StoreError>(StoreError::Conflict) && final(self).users() == old(self).users()
                && final(self).usernames() == old(self).usernames() && final(self).emails() == old(self).emails(),
            r is Ok ==> final(self).users() == old(self).users().insert(user.id@, user),
            r is Ok ==> final(self).user_by_username(user.username@) == Some(user)
                && final(self).user_by_email(user.email@) == Some(user),
            r is Ok && old(self).users().contains_key(user.id@) && old(self).users()[user.id@].username@ != user.username@
                ==> final(self).user_by_username(old(self).users()[user.id@].username@) is None,
            r is Ok && old(self).users().contains_key(user.id@) && old(self).users()[user.id@].email@ != user.email@
                ==> final(self).user_by_email(old(self).users()[user.id@].email@) is None,
    {
        match self.users_by_username.get(&user.username) {
            Some(owner) => {
                if *owner != user.id {
                    return Err(StoreError::Conflict);
                }
            },
            None => {},
        }
        match self.users_by_email.get(&user.email) {
            Some(owner) => {
                if *owner != user.id {
                    return Err(StoreError::Conflict);
                }
            },
            None => {},
        }
        let ghost u0 = self.users@;
        let ghost n0 = self.users_by_username@;
        let ghost e0 = self.users_by_email@;
        let ghost id = user.id@;
        match self.users.get(&user.id) {
            Some(prev) => {
                let old_name = prev.username.clone();
                let old_email = prev.email.clone();
                self.users_by_username.remove(&old_name);
                self.users_by_email.remove(&old_email);
            },
            None => {},
        }
        let ghost n1 = self.users_by_username@;
        let ghost e1 = self.users_by_email@;
        assert(forall|n: Seq<char>| #[trigger] n1.contains_key(n) ==> n0.contains_key(n) && n1[n] == n0[n]
            && n0[n]@ != id);
        assert(forall|e: Seq<char>| #[trigger] e1.contains_key(e) ==> e0.contains_key(e) && e1[e] == e0[e]
            && e0[e]@ != id);
        self.users_by_username.insert(user.username.clone(), user.id.clone());
        self.users_by_email.insert(user.email.clone(), user.id.clone());
        self.users.insert(user.id.clone(), user);
        let ghost u2 = self.users@;
        let ghost n2 = self.users_by_username@;
        let ghost e2 = self.users_by_email@;
        assert forall|x: Seq<char>| #[trigger] u2.contains_key(x) implies u2[x].id@ == x
            && n2.contains_key(u2[x].username@) && n2[u2[x].username@]@ == x
            && e2.contains_key(u2[x].email@) && e2[u2[x].email@]@ == x by {
            if x != id {
                assert(u0.contains_key(x));
                assert(n0[u0[x].username@]@ == x);
                assert(e0[u0[x].email@]@ == x);
            }
        }
        assert(Self::indices_consistent(u2, n2, e2));
        assert(u2.contains_key(id));
        proof {
            if u0.contains_key(id) {
                assert(n0[u0[id].username@]@ == id);
                assert(e0[u0[id].email@]@ == id);
            }
        }
        Ok(())
    }

    /// The user stored under `id`.
    pub fn get_user(&self, id: &String) -> (r: Option<&User>)
        requires
            self.wf(),
        ensures
            match r {
                Some(u) => self.users().contains_key(id@) && self.users()[id@] == *u,
                None => !self.users().contains_key(id@),
            },
    {
        self.users.get(id)
    }

    /// The user whose username is `name`, found through the username index.
    pub fn get_user_by_username(&self, name: &String) -> (r: Option<&User>)
        requires
            self.wf(),
        ensures
            r matches Some(u) ==> self.user_by_username(name@) == Some(*u),
            r is None ==> self.user_by_username(name@) is None,
    {
        match self.users_by_username.get(name) {
            Some(id) => self.users.get(id),
            None => None,
        }
    }

    /// The user whose email is `email`, found through the email index.
    pub fn get_user_by_email(&self, email: &String) -> (r: Option<&User>)
        requires
            self.wf(),
        ensures
            r matches Some(u) ==> self.user_by_email(email@) == Some(*u),
            r is None ==> self.user_by_email(email@) is None,
    {
        match self.users_by_email.get(email) {
            Some(id) => self.users.get(id),
            None => None,
        }
    }

    /// Removes the user `id` and both its index entries, in one step.
    /// Returns whether the user existed.
    pub fn delete_user(&mut self, id: &String) -> (r: bool)
        requires
            old(self).wf(),
        ensures
            final(self).wf(),
            Self::same_but_users(old(self), final(self)),
            r == old(self).users().contains_key(id@),
            final(self).users() == old(self).users().remove(id@),
            r ==> final(self).user_by_username(old(self).users()[id@].username@) is None
                && final(self).user_by_email(old(self).users()[id@].email@) is None,
            r ==> final(self).usernames() == old(self).usernames().remove(old(self).users()[id@].username@),
            r ==> final(self).emails() == old(self).emails().remove(old(self).users()[id@].email@),
            !r ==> final(self).usernames() == old(self).usernames() && final(self).emails() == old(self).emails(),
    {
        let ghost u0 = self.users@;
        let ghost n0 = self.users_by_username@;
        let ghost e0 = self.users_by_email@;
        match self.users.remove(id) {
            Some(prev) => {
                self.users_by_username.remove(&prev.username);
                self.users_by_email.remove(&prev.email);
                let ghost u1 = self.users@;
                let ghost n1 = self.users_by_username@;
                let ghost e1 = self.users_by_email@;
                assert forall|x: Seq<char>| #[trigger] u1.contains_key(x) implies u1[x].id@ == x
                    && n1.contains_key(u1[x].username@) && n1[u1[x].username@]@ == x
                    && e1.contains_key(u1[x].email@) && e1[u1[x].email@]@ == x by {
                    assert(u0.contains_key(x));
                    assert(n0[u0[x].username@]@ == x);
                    assert(e0[u0[x].email@]@ == x);
                }
                assert(Self::indices_consistent(u1, n1, e1));
                proof {
                    Self::lemma_deleted_user_gone(old(self), self, u0[id@]);
                }
                true
            },
            None => false,
        }
    }

    /// All users, each once.
    pub fn list_users(&self) -> (r: Vec<User>)
        requires
            self.wf(),
        ensures
            forall|i: int| 0 <= i < r@.len() ==> self.users().contains_key(#[trigger] r@[i].id@)
                && self.users()[r@[i].id@] == r@[i],
            forall|id: Seq<char>| #[trigger] self.users().contains_key(id) ==> exists|i: int|
                0 <= i < r@.len() && #[trigger] r@[i].id@ == id,
            forall|i: int, j: int| 0 <= i < r@.len() && 0 <= j < r@.len() && #[trigger] r@[i].id@ == #[trigger] r@[j].id@ ==> i == j,
    {
        let mut out: Vec<User> = Vec::new();
        let n = self.users.len();
        let mut i: usize = 0;
        proof { self.users.lemma_positions(); }
        while i < n
            invariant
                self.wf(),
                n == self.users.spec_len(),
                i <= n,
                out@.len() == i,
                forall|j: int| 0 <= j < i ==> self.users.key_at(j) == #[trigger] out@[j].id@
                    && self.users@[out@[j].id@] == out@[j],
                forall|j: int| 0 <= j < i ==> self.users@.contains_key(#[trigger] self.users.key_at(j)),
            decreases n - i,
        {
            let u = self.users.value(i);
            assert(self.users@.contains_key(self.users.key_at(i as int)));
            assert(u.id@ == self.users.key_at(i as int));
            let c = u.clone();
            let ghost prev = out@;
            out.push(c);
            assert forall|j: int| 0 <= j < i + 1 implies self.users.key_at(j) == #[trigger] out@[j].id@
                && self.users@[out@[j].id@] == out@[j] by {
                if j < i {
                    assert(out@[j] == prev[j]);
                    assert(self.users.key_at(j) == prev[j].id@);
                    assert(self.users@[prev[j].id@] == prev[j]);
                }
            }
            i = i + 1;
        }
        assert forall|id: Seq<char>| #[trigger] self.users().contains_key(id) implies exists|j: int|
            0 <= j < out@.len() && #[trigger] out@[j].id@ == id by {
            let j = choose|j: int| 0 <= j < self.users.spec_len() && #[trigger] self.users.key_at(j) == id;
            assert(out@[j].id@ == id);
        }
        assert forall|i: int, j: int| 0 <= i < out@.len() && 0 <= j < out@.len() && #[trigger] out@[i].id@ == #[trigger] out@[j].id@ implies i == j by {
            assert(self.users.key_at(i) == out@[i].id@);
            assert(self.users.key_at(j) == out@[j].id@);
        }
        out
    }

    /// A saved user is found through its username and through its email.
    pub proof fn lemma_saved_user_found(before: &Self, after: &Self, u: User)
        requires
            after.wf(),
            after.users() == before.users().insert(u.id@, u),
        ensures
            after.user_by_username(u.username@) == Some(u),
            after.user_by_email(u.email@) == Some(u),
    {
        assert(after.users().contains_key(u.id@));
    }

    /// Once the user `u` is deleted, neither its username nor its email leads to a user.
    pub proof fn lemma_deleted_user_gone(before: &Self, after: &Self, u: User)
        requires
            before.wf(),
            after.wf(),
            before.users().contains_key(u.id@),
            before.users()[u.id@] == u,
            after.users() == before.users().remove(u.id@),
        ensures
            after.user_by_username(u.username@) is None,
            after.user_by_email(u.email@) is None,
    {
        if after.usernames().contains_key(u.username@) {
            let other = after.usernames()[u.username@]@;
            assert(after.users().contains_key(other));
            assert(before.users().contains_key(other));
            assert(before.usernames()[before.users()[other].username@]@ == other);
            assert(before.usernames()[u.username@]@ == u.id@);
        }
        if after.emails().contains_key(u.email@) {
            let other = after.emails()[u.email@]@;
            assert(after.users().contains_key(other));
            assert(before.users().contains_key(other));
            assert(before.emails()[before.users()[other].email@]@ == other);
            assert(before.emails()[u.email@]@ == u.id@);
        }
    }

    /// Every table but the sessions is the same in `a` and `b`.
    pub open spec fn same_but_sessions(a: &Self, b: &Self) -> bool {
        &&& a.users() == b.users()
        &&& a.usernames() == b.usernames()
        &&& a.emails() == b.emails()
        &&& a.lots() == b.lots()
        &&& a.slots() == b.slots()
        &&& a.bookings() == b.bookings()
        &&& a.waitlist() == b.waitlist()
        &&& a.settings() == b.settings()
        &&& a.vehicles() == b.vehicles()
    }

    /// Stores `session` under `token`.
    pub fn save_session(&mut self, token: String, session: Session)
        requires
            old(self).wf(),
        ensures
            final(self).wf(),
            Self::same_but_sessions(old(self), final(self)),
            final(self).sessions() == old(self).sessions().insert(token@, session),
    {
        self.sessions.insert(token, session);
    }

    /// The session under `token`, unless it is missing or expired at `now`:
    /// an expired session reads as absent, though it stays stored.
    pub fn get_session(&self, token: &String, now: u64) -> (r: Option<&Session>)
        requires
            self.wf(),
        ensures
            r matches Some(s) ==> self.sessions().contains_key(token@) && self.sessions()[token@] == *s
                && session_live(*s, now as int),
            r is None ==> !(self.sessions().contains_key(token@) && session_live(self.sessions()[token@], now as int)),
    {
        match self.sessions.get(token) {
            Some(s) => {
                if now < s.expires_at {
                    Some(s)
                } else {
                    None
                }
            },
            None => None,
        }
    }

    /// The session stored under `token`, live or not.
    pub fn stored_session(&self, token: &String) -> (r: Option<&Session>)
        requires
            self.wf(),
        ensures
            match r {
                Some(v) => self.sessions().contains_key(token@) && self.sessions()[token@] == *v,
                None => !self.sessions().contains_key(token@),
            },
    {
        self.sessions.get(token)
    }

    /// The user id of the live session under `token`.
    pub fn validate_session(&self, token: &String, now: u64) -> (r: Option<String>)
        requires
            self.wf(),
        ensures
            r matches Some(id) ==> self.sessions().contains_key(token@) && session_live(self.sessions()[token@], now as int)
                && id@ == self.sessions()[token@].user_id@,
            r is None ==> !(self.sessions().contains_key(token@) && session_live(self.sessions()[token@], now as int)),
    {
        match self.get_session(token, now) {
            Some(s) => Some(s.user_id.clone()),
            None => None,
        }
    }

    /// Removes the session under `token`; returns whether it was stored.
    pub fn delete_session(&mut self, token: &String) -> (r: bool)
        requires
            old(self).wf(),
        ensures
            final(self).wf(),
            Self::same_but_sessions(old(self), final(self)),
            r == old(self).sessions().contains_key(token@),
            final(self).sessions() == old(self).sessions().remove(token@),
    {
        self.sessions.remove(token).is_some()
    }

    /// Opens a session for `user` that lives `ttl_hours` hours from `now`,
    /// under a fresh random token with a fresh random refresh token.
    pub fn create_session(&mut self, user: &User, role: String, ttl_hours: u64, now: u64) -> (r: (String, Session))
        requires
            old(self).wf(),
            now + ttl_hours * 3600 <= u64::MAX,
        ensures
            final(self).wf(),
            Self::same_but_sessions(old(self), final(self)),
            final(self).sessions() == old(self).sessions().insert(r.0@, r.1),
            r.1.user_id == user.id,
            r.1.username == user.username,
            r.1.role == role,
            r.1.created_at == now,
            r.1.expires_at == now + ttl_hours * 3600,
            r.1.refresh_token@.len() >= 3 && r.1.refresh_token@.subrange(0, 3) == "rt_"@,
    {
        let token = new_id();
        let session = Session {
            user_id: user.id.clone(),
            username: user.username.clone(),
            role,
            refresh_token: String::from_str("rt_").concat(new_id().as_str()),
            created_at: now,
            expires_at: now + ttl_hours * 3600,
        };
        proof {
            reveal_strlit("rt_");
            assert(session.refresh_token@.subrange(0, 3) =~= "rt_"@);
        }
        self.sessions.insert(token.clone(), session.clone());
        (token, session)
    }

    /// A session made at `created` with a lifetime of `hours` hours is live one
    /// second before its expiry and dead one second after.
    pub proof fn lemma_session_ttl(s: Session, created: int, hours: int)
        requires
            s.created_at == created,
            s.expires_at == created + hours * 3600,
        ensures
            session_live(s, created + hours * 3600 - 1),
            !session_live(s, created + hours * 3600 + 1),
    {
    }

    /// Every table but the settings is the same in `a` and `b`.
    pub open spec fn same_but_settings(a: &Self, b: &Self) -> bool {
        &&& a.users() == b.users()
        &&& a.usernames() == b.usernames()
        &&& a.emails() == b.emails()
        &&& a.sessions() == b.sessions()
        &&& a.lots() == b.lots()
        &&& a.slots() == b.slots()
        &&& a.bookings() == b.bookings()
        &&& a.waitlist() == b.waitlist()
        &&& a.vehicles() == b.vehicles()
    }

    /// The setting under `key`.
    pub fn get_setting(&self, key: &String) -> (r: Option<&String>)
        requires
            self.wf(),
        ensures
            match r {
                Some(v) => self.settings().contains_key(key@) && self.settings()[key@] == *v,
                None => !self.settings().contains_key(key@),
            },
    {
        self.settings.get(key)
    }

    /// Stores `value` under `key` in the settings.
    pub fn set_setting(&mut self, key: String, value: String)
        requires
            old(self).wf(),
        ensures
            final(self).wf(),
            Self::same_but_settings(old(self), final(self)),
            final(self).settings() == old(self).settings().insert(key@, value),
    {
        self.settings.insert(key, value);
    }

    /// True until first-run setup has been recorded as finished.
    pub fn is_fresh(&self) -> (r: bool)
        requires
            self.wf(),
        ensures
            r == !(self.settings().contains_key(SETTING_SETUP_COMPLETED@)
                && self.settings()[SETTING_SETUP_COMPLETED@]@ == "true"@),
    {
        let key = String::from_str(SETTING_SETUP_COMPLETED);
        match self.settings.get(&key) {
            Some(v) => *v != String::from_str("true"),
            None => true,
        }
    }

    /// Records that first-run setup has finished.
    pub fn mark_setup_completed(&mut self)
        requires
            old(self).wf(),
        ensures
            final(self).wf(),
            Self::same_but_settings(old(self), final(self)),
            final(self).settings() == old(self).settings().insert(SETTING_SETUP_COMPLETED@, final(self).settings()[SETTING_SETUP_COMPLETED@]),
            final(self).settings()[SETTING_SETUP_COMPLETED@]@ == "true"@,
    {
        self.settings.insert(String::from_str(SETTING_SETUP_COMPLETED), String::from_str("true"));
    }

    /// Accounts, sessions, lots and settings are the same in `a` and `b`.
    pub open spec fn same_accounts(a: &Self, b: &Self) -> bool {
        &&& a.users() == b.users()
        &&& a.usernames() == b.usernames()
        &&& a.emails() == b.emails()
        &&& a.sessions() == b.sessions()
        &&& a.lots() == b.lots()
        &&& a.settings() == b.settings()
        &&& a.vehicles() == b.vehicles()
    }

    /// Stores `lot` under its id.
    pub fn save_parking_lot(&mut self, lot: ParkingLot)
        requires
            old(self).wf(),
        ensures
            final(self).wf(),
            final(self).lots() == old(self).lots().insert(lot.id@, lot),
            final(self).users() == old(self).users(),
            final(self).sessions() == old(self).sessions(),
            final(self).slots() == old(self).slots(),
            final(self).bookings() == old(self).bookings(),
            final(self).waitlist() == old(self).waitlist(),
            final(self).settings() == old(self).settings(),
            final(self).vehicles() == old(self).vehicles(),
            final(self).usernames() == old(self).usernames(),
            final(self).emails() == old(self).emails(),
    {
        self.lots.insert(lot.id.clone(), lot);
    }

    /// The lot stored under `id`.
    pub fn get_parking_lot(&self, id: &String) -> (r: Option<&ParkingLot>)
        requires
            self.wf(),
        ensures
            match r {
                Some(l) => self.lots().contains_key(id@) && self.lots()[id@] == *l,
                None => !self.lots().contains_key(id@),
            },
    {
        self.lots.get(id)
    }

    /// Stores `slot` under its id.
    pub fn save_parking_slot(&mut self, slot: ParkingSlot)
        requires
            old(self).wf(),
        ensures
            final(self).wf(),
            Self::same_accounts(old(self), final(self)),
            final(self).slots() == old(self).slots().insert(slot.id@, slot),
            final(self).bookings() == old(self).bookings(),
            final(self).waitlist() == old(self).waitlist(),
    {
        self.slots.insert(slot.id.clone(), slot);
    }

    /// The slot stored under `id`.
    pub fn get_parking_slot(&self, id: &String) -> (r: Option<&ParkingSlot>)
        requires
            self.wf(),
        ensures
            match r {
                Some(v) => self.slots().contains_key(id@) && self.slots()[id@] == *v && v.id@ == id@,
                None => !self.slots().contains_key(id@),
            },
    {
        self.slots.get(id)
    }

    /// Sets the status of slot `id`; returns whether the slot exists.
    pub fn update_slot_status(&mut self, id: &String, status: SlotStatus) -> (r: bool)
        requires
            old(self).wf(),
        ensures
            final(self).wf(),
            Self::same_accounts(old(self), final(self)),
            final(self).bookings() == old(self).bookings(),
            final(self).waitlist() == old(self).waitlist(),
            r == old(self).slots().contains_key(id@),
            r ==> final(self).slots() == old(self).slots().insert(id@, ParkingSlot { status, ..old(self).slots()[id@] }),
            !r ==> final(self).slots() == old(self).slots(),
    {
        match self.slots.get(id) {
            Some(s) => {
                let mut updated = s.clone();
                updated.status = status;
                self.slots.insert(id.clone(), updated);
                true
            },
            None => false,
        }
    }

    /// All slots of lot `lot_id`.
    pub fn list_slots_by_lot(&self, lot_id: &String) -> (r: Vec<ParkingSlot>)
        requires
            self.wf(),
        ensures
            forall|i: int| 0 <= i < r@.len() ==> self.slots().contains_key(#[trigger] r@[i].id@)
                && self.slots()[r@[i].id@] == r@[i] && r@[i].lot_id@ == lot_id@,
            forall|id: Seq<char>| #[trigger] self.slots().contains_key(id) && self.slots()[id].lot_id@ == lot_id@
                ==> exists|i: int| 0 <= i < r@.len() && #[trigger] r@[i].id@ == id,
            forall|i: int, j: int| 0 <= i < r@.len() && 0 <= j < r@.len() && #[trigger] r@[i].id@ == #[trigger] r@[j].id@ ==> i == j,
    {
        let keys = self.slots.keys();
        let mut out: Vec<ParkingSlot> = Vec::new();
        let mut i: usize = 0;
        while i < keys.len()
            invariant
                self.wf(),
                i <= keys@.len(),
                forall|j: int| 0 <= j < keys@.len() ==> self.slots@.contains_key(#[trigger] keys@[j]@),
                forall|j: int| 0 <= j < out@.len() ==> self.slots@.contains_key(#[trigger] out@[j].id@)
                    && self.slots@[out@[j].id@] == out@[j] && out@[j].lot_id@ == lot_id@,
                forall|j: int| 0 <= j < i && self.slots@[keys@[j]@].lot_id@ == lot_id@ ==> exists|a: int|
                    0 <= a < out@.len() && #[trigger] out@[a].id@ == #[trigger] keys@[j]@,
                forall|b: int, c: int| 0 <= b < keys@.len() && 0 <= c < keys@.len() && #[trigger] keys@[b]@ == #[trigger] keys@[c]@ ==> b == c,
                forall|a: int| #![trigger out@[a].id@] 0 <= a < out@.len() ==> exists|j: int| 0 <= j < i && #[trigger] keys@[j]@ == out@[a].id@,
                forall|a: int, c: int| 0 <= a < out@.len() && 0 <= c < out@.len() && #[trigger] out@[a].id@ == #[trigger] out@[c].id@ ==> a == c,
            decreases keys@.len() - i,
        {
            let k = &keys[i];
            assert(self.slots@.contains_key(keys@[i as int]@));
            match self.slots.get(k) {
                Some(slot) => {
                    if slot.lot_id == *lot_id {
                        let ghost prev = out@;
                        out.push(slot.clone());
                        proof { self.lemma_stored_ids(); }
                        assert(out@[prev.len() as int].id@ == keys@[i as int]@);
                        assert forall|a: int| #![trigger out@[a].id@] 0 <= a < out@.len() implies exists|j: int| 0 <= j < i + 1 && #[trigger] keys@[j]@ == out@[a].id@ by {
                            if a < prev.len() {
                                assert(out@[a] == prev[a]);
                                let j = choose|j: int| 0 <= j < i && #[trigger] keys@[j]@ == prev[a].id@;
                                assert(keys@[j]@ == out@[a].id@);
                            } else {
                                assert(keys@[i as int]@ == out@[a].id@);
                            }
                        }
                        assert forall|a: int, c: int| 0 <= a < out@.len() && 0 <= c < out@.len() && #[trigger] out@[a].id@ == #[trigger] out@[c].id@ implies a == c by {
                            if a < prev.len() && c < prev.len() {
                                assert(out@[a] == prev[a] && out@[c] == prev[c]);
                            } else if a < prev.len() {
                                assert(out@[a] == prev[a]);
                                let j = choose|j: int| 0 <= j < i && #[trigger] keys@[j]@ == prev[a].id@;
                                assert(keys@[j]@ == keys@[i as int]@);
                            } else if c < prev.len() {
                                assert(out@[c] == prev[c]);
                                let j = choose|j: int| 0 <= j < i && #[trigger] keys@[j]@ == prev[c].id@;
                                assert(keys@[j]@ == keys@[i as int]@);
                            }
                        }
                        assert forall|j: int| 0 <= j < out@.len() implies self.slots@.contains_key(#[trigger] out@[j].id@)
                            && self.slots@[out@[j].id@] == out@[j] && out@[j].lot_id@ == lot_id@ by {
                            if j < prev.len() {
                                assert(out@[j] == prev[j]);
                            }
                        }
                        assert forall|j: int| 0 <= j < i + 1 && self.slots@[keys@[j]@].lot_id@ == lot_id@ implies exists|a: int|
                            0 <= a < out@.len() && #[trigger] out@[a].id@ == #[trigger] keys@[j]@ by {
                            if j < i {
                                let a = choose|a: int| 0 <= a < prev.len() && #[trigger] prev[a].id@ == keys@[j]@;
                                assert(out@[a] == prev[a]);
                            } else {
                                assert(out@[prev.len() as int].id@ == keys@[j]@);
                            }
                        }
                    }
                },
                None => {},
            }
            i = i + 1;
        }
        out
    }

    /// Stores `booking` under its id.
    pub fn save_booking(&mut self, booking: Booking)
        requires
            old(self).wf(),
        ensures
            final(self).wf(),
            Self::same_accounts(old(self), final(self)),
            final(self).bookings() == old(self).bookings().insert(booking.id@, booking),
            final(self).slots() == old(self).slots(),
            final(self).waitlist() == old(self).waitlist(),
    {
        self.bookings.insert(booking.id.clone(), booking);
    }

    /// The booking stored under `id`.
    pub fn get_booking(&self, id: &String) -> (r: Option<&Booking>)
        requires
            self.wf(),
        ensures
            match r {
                Some(v) => self.bookings().contains_key(id@) && self.bookings()[id@] == *v && v.id@ == id@,
                None => !self.bookings().contains_key(id@),
            },
    {
        self.bookings.get(id)
    }

    /// Removes booking `id`; returns whether it was stored.
    pub fn delete_booking(&mut self, id: &String) -> (r: bool)
        requires
            old(self).wf(),
        ensures
            final(self).wf(),
            Self::same_accounts(old(self), final(self)),
            r == old(self).bookings().contains_key(id@),
            final(self).bookings() == old(self).bookings().remove(id@),
            final(self).slots() == old(self).slots(),
            final(self).waitlist() == old(self).waitlist(),
    {
        self.bookings.remove(id).is_some()
    }

    /// The ids of all bookings, each once.
    pub fn booking_ids(&self) -> (r: Vec<String>)
        requires
            self.wf(),
        ensures
            forall|i: int| 0 <= i < r@.len() ==> self.bookings().contains_key(#[trigger] r@[i]@),
            forall|k: Seq<char>| #[trigger] self.bookings().contains_key(k) ==> exists|i: int| 0 <= i < r@.len() && #[trigger] r@[i]@ == k,
            forall|i: int, j: int| 0 <= i < r@.len() && 0 <= j < r@.len() && #[trigger] r@[i]@ == #[trigger] r@[j]@ ==> i == j,
    {
        self.bookings.keys()
    }

    /// Stores `entry` under its id.
    pub fn save_waitlist_entry(&mut self, entry: WaitlistEntry)
        requires
            old(self).wf(),
        ensures
            final(self).wf(),
            Self::same_accounts(old(self), final(self)),
            final(self).waitlist() == old(self).waitlist().insert(entry.id@, entry),
            final(self).slots() == old(self).slots(),
            final(self).bookings() == old(self).bookings(),
    {
        self.waitlist.insert(entry.id.clone(), entry);
    }

    /// The waitlist entry stored under `id`.
    pub fn get_waitlist_entry(&self, id: &String) -> (r: Option<&WaitlistEntry>)
        requires
            self.wf(),
        ensures
            match r {
                Some(v) => self.waitlist().contains_key(id@) && self.waitlist()[id@] == *v && v.id@ == id@,
                None => !self.waitlist().contains_key(id@),
            },
    {
        self.waitlist.get(id)
    }

    /// Removes waitlist entry `id`; returns whether it was stored.
    pub fn delete_waitlist_entry(&mut self, id: &String) -> (r: bool)
        requires
            old(self).wf(),
        ensures
            final(self).wf(),
            Self::same_accounts(old(self), final(self)),
            r == old(self).waitlist().contains_key(id@),
            final(self).waitlist() == old(self).waitlist().remove(id@),
            final(self).slots() == old(self).slots(),
            final(self).bookings() == old(self).bookings(),
    {
        self.waitlist.remove(id).is_some()
    }

    /// The ids of all waitlist entries, each once.
    pub fn waitlist_ids(&self) -> (r: Vec<String>)
        requires
            self.wf(),
        ensures
            forall|i: int| 0 <= i < r@.len() ==> self.waitlist().contains_key(#[trigger] r@[i]@),
            forall|k: Seq<char>| #[trigger] self.waitlist().contains_key(k) ==> exists|i: int| 0 <= i < r@.len() && #[trigger] r@[i]@ == k,
            forall|i: int, j: int| 0 <= i < r@.len() && 0 <= j < r@.len() && #[trigger] r@[i]@ == #[trigger] r@[j]@ ==> i == j,
    {
        self.waitlist.keys()
    }

    /// Row counts of the main tables.
    pub fn stats(&self) -> (r: DatabaseStats)
        requires
            self.wf(),
        ensures
            r.users == self.users().dom().len(),
            r.bookings == self.bookings().dom().len(),
            r.parking_lots == self.lots().dom().len(),
            r.slots == self.slots().dom().len(),
            r.sessions == self.sessions().dom().len(),
            r.vehicles == self.vehicles().dom().len(),
    {
        proof {
            self.users.lemma_len();
            self.bookings.lemma_len();
            self.lots.lemma_len();
            self.slots.lemma_len();
            self.sessions.lemma_len();
            self.vehicles.lemma_len();
        }
        DatabaseStats {
            users: self.users.len() as u64,
            bookings: self.bookings.len() as u64,
            parking_lots: self.lots.len() as u64,
            slots: self.slots.len() as u64,
            sessions: self.sessions.len() as u64,
            vehicles: self.vehicles.len() as u64,
        }
    }

    /// Sets up the record codec for `config`. With encryption enabled, the key
    /// is derived from the passphrase and the stored salt; on first use a
    /// fresh 32-byte salt is made and stored, hex-encoded, for every later open.
    pub fn open_codec(&mut self, config: &DatabaseConfig) -> (r: Result<Codec, OpenError>)
        requires
            old(self).wf(),
        ensures
            final(self).wf(),
            Self::same_but_settings(old(self), final(self)),
            !config.encryption_enabled ==> (r matches Ok(c) && c.cipher is None),
            !config.encryption_enabled ==> final(self).settings() == old(self).settings(),
            config.encryption_enabled && config.passphrase is None ==> r == Err::<Codec, OpenError>(OpenError::MissingPassphrase)
                && final(self).settings() == old(self).settings(),
            config.encryption_enabled && config.passphrase is Some && old(self).settings().contains_key(SETTING_ENCRYPTION_SALT@) ==> {
                let text = old(self).settings()[SETTING_ENCRYPTION_SALT@]@;
                &&& final(self).settings() == old(self).settings()
                &&& match hex_decoded(text) {
                    None => r == Err::<Codec, OpenError>(OpenError::InvalidSalt),
                    Some(salt) => (r matches Ok(c) && c.wf() && c.key() == Some(pbkdf2_sha256_key(
                        vstd::utf8::encode_utf8(config.passphrase.unwrap()@), salt, KDF_ROUNDS))),
                }
            },
            config.encryption_enabled && config.passphrase is Some && !old(self).settings().contains_key(SETTING_ENCRYPTION_SALT@) ==> {
                &&& final(self).settings().dom() == old(self).settings().dom().insert(SETTING_ENCRYPTION_SALT@)
                &&& final(self).settings() == old(self).settings().insert(SETTING_ENCRYPTION_SALT@, final(self).settings()[SETTING_ENCRYPTION_SALT@])
                &&& match hex_decoded(final(self).settings()[SETTING_ENCRYPTION_SALT@]@) {
                    Some(salt) => salt.len() == 32 && (r matches Ok(c) && c.wf() && c.key() == Some(pbkdf2_sha256_key(
                        vstd::utf8::encode_utf8(config.passphrase.unwrap()@), salt, KDF_ROUNDS))),
                    None => false,
                }
            },
    {
        if !config.encryption_enabled {
            return Ok(Codec { cipher: None });
        }
        let passphrase = match &config.passphrase {
            Some(p) => p,
            None => return Err(OpenError::MissingPassphrase),
        };
        let key = String::from_str(SETTING_ENCRYPTION_SALT);
        match self.settings.get(&key) {
            Some(text) => {
                match hex_decode(text.as_str()) {
                    Some(salt) => Ok(Codec { cipher: Some(Cipher::new(passphrase, salt.as_slice())) }),
                    None => Err(OpenError::InvalidSalt),
                }
            },
            None => {
                let salt = random_bytes(SALT_LEN);
                let text = hex_encode(salt.as_slice());
                proof { lemma_hex_round_trip(salt@); }
                self.settings.insert(key, text);
                Ok(Codec { cipher: Some(Cipher::new(passphrase, salt.as_slice())) })
            },
        }
    }

    /// Removes lot `id` together with every slot and every booking of that
    /// lot, in one step. Returns whether the lot existed.
    pub fn delete_parking_lot(&mut self, id: &String) -> (r: bool)
        requires
            old(self).wf(),
        ensures
            final(self).wf(),
            r == old(self).lots().contains_key(id@),
            final(self).lots() == old(self).lots().remove(id@),
            final(self).users() == old(self).users(),
            final(self).usernames() == old(self).usernames(),
            final(self).emails() == old(self).emails(),
            final(self).sessions() == old(self).sessions(),
            final(self).waitlist() == old(self).waitlist(),
            final(self).settings() == old(self).settings(),
            final(self).vehicles() == old(self).vehicles(),
            forall|k: Seq<char>| #[trigger] final(self).slots().contains_key(k) <==> old(self).slots().contains_key(k)
                && old(self).slots()[k].lot_id@ != id@,
            forall|k: Seq<char>| #[trigger] final(self).slots().contains_key(k) ==> final(self).slots()[k] == old(self).slots()[k],
            forall|k: Seq<char>| #[trigger] final(self).bookings().contains_key(k) <==> old(self).bookings().contains_key(k)
                && old(self).bookings()[k].lot_id@ != id@,
            forall|k: Seq<char>| #[trigger] final(self).bookings().contains_key(k) ==> final(self).bookings()[k] == old(self).bookings()[k],
    {
        let existed = self.lots.remove(id).is_some();
        let ghost s0 = self.slots@;
        let keys = self.slots.keys();
        let mut i: usize = 0;
        while i < keys.len()
            invariant
                self.wf(),
                self.lots@ == old(self).lots@.remove(id@),
                self.users@ == old(self).users@,
                self.users_by_username@ == old(self).users_by_username@,
                self.users_by_email@ == old(self).users_by_email@,
                self.sessions@ == old(self).sessions@,
                self.bookings@ == old(self).bookings@,
                self.waitlist@ == old(self).waitlist@,
                self.settings@ == old(self).settings@,
                self.vehicles@ == old(self).vehicles@,
                s0 == old(self).slots@,
                i <= keys@.len(),
                forall|j: int| 0 <= j < keys@.len() ==> s0.contains_key(#[trigger] keys@[j]@),
                forall|k: Seq<char>| #[trigger] s0.contains_key(k) ==> exists|j: int| 0 <= j < keys@.len() && #[trigger] keys@[j]@ == k,
                forall|a: int, c: int| 0 <= a < keys@.len() && 0 <= c < keys@.len() && #[trigger] keys@[a]@ == #[trigger] keys@[c]@ ==> a == c,
                forall|k: Seq<char>| #[trigger] self.slots@.contains_key(k) ==> s0.contains_key(k) && self.slots@[k] == s0[k],
                forall|j: int| 0 <= j < i ==> (self.slots@.contains_key(#[trigger] keys@[j]@) <==> s0[keys@[j]@].lot_id@ != id@),
                forall|j: int| i <= j < keys@.len() ==> self.slots@.contains_key(#[trigger] keys@[j]@),
            decreases keys@.len() - i,
        {
            let hit = match self.slots.get(&keys[i]) {
                Some(v) => v.lot_id == *id,
                None => false,
            };
            if hit {
                self.slots.remove(&keys[i]);
            }
            i = i + 1;
        }
        assert forall|k: Seq<char>| #[trigger] self.slots@.contains_key(k) <==> s0.contains_key(k) && s0[k].lot_id@ != id@ by {
            if s0.contains_key(k) {
                let j = choose|j: int| 0 <= j < keys@.len() && #[trigger] keys@[j]@ == k;
                assert(self.slots@.contains_key(keys@[j]@) <==> s0[keys@[j]@].lot_id@ != id@);
            }
        }
        let ghost b0 = self.bookings@;
        let keys = self.bookings.keys();
        let mut i: usize = 0;
        while i < keys.len()
            invariant
                self.wf(),
                self.lots@ == old(self).lots@.remove(id@),
                self.users@ == old(self).users@,
                self.users_by_username@ == old(self).users_by_username@,
                self.users_by_email@ == old(self).users_by_email@,
                self.sessions@ == old(self).sessions@,
                self.waitlist@ == old(self).waitlist@,
                self.settings@ == old(self).settings@,
                self.vehicles@ == old(self).vehicles@,
                forall|k: Seq<char>| #[trigger] self.slots@.contains_key(k) <==> s0.contains_key(k) && s0[k].lot_id@ != id@,
                forall|k: Seq<char>| #[trigger] self.slots@.contains_key(k) ==> self.slots@[k] == s0[k],
                s0 == old(self).slots@,
                b0 == old(self).bookings@,
                i <= keys@.len(),
                forall|j: int| 0 <= j < keys@.len() ==> b0.contains_key(#[trigger] keys@[j]@),
                forall|k: Seq<char>| #[trigger] b0.contains_key(k) ==> exists|j: int| 0 <= j < keys@.len() && #[trigger] keys@[j]@ == k,
                forall|a: int, c: int| 0 <= a < keys@.len() && 0 <= c < keys@.len() && #[trigger] keys@[a]@ == #[trigger] keys@[c]@ ==> a == c,
                forall|k: Seq<char>| #[trigger] self.bookings@.contains_key(k) ==> b0.contains_key(k) && self.bookings@[k] == b0[k],
                forall|j: int| 0 <= j < i ==> (self.bookings@.contains_key(#[trigger] keys@[j]@) <==> b0[keys@[j]@].lot_id@ != id@),
                forall|j: int| i <= j < keys@.len() ==> self.bookings@.contains_key(#[trigger] keys@[j]@),
            decreases keys@.len() - i,
        {
            let hit = match self.bookings.get(&keys[i]) {
                Some(v) => v.lot_id == *id,
                None => false,
            };
            if hit {
                self.bookings.remove(&keys[i]);
            }
            i = i + 1;
        }
        assert forall|k: Seq<char>| #[trigger] self.bookings@.contains_key(k) <==> b0.contains_key(k) && b0[k].lot_id@ != id@ by {
            if b0.contains_key(k) {
                let j = choose|j: int| 0 <= j < keys@.len() && #[trigger] keys@[j]@ == k;
                assert(self.bookings@.contains_key(keys@[j]@) <==> b0[keys@[j]@].lot_id@ != id@);
            }
        }
        existed
    }

    /// All bookings of user `user_id`.
    pub fn list_bookings_by_user(&self, user_id: &String) -> (r: Vec<Booking>)
        requires
            self.wf(),
        ensures
            forall|i: int| 0 <= i < r@.len() ==> self.bookings().contains_key(#[trigger] r@[i].id@)
                && self.bookings()[r@[i].id@] == r@[i] && r@[i].user_id@ == user_id@,
            forall|id: Seq<char>| #[trigger] self.bookings().contains_key(id) && self.bookings()[id].user_id@ == user_id@
                ==> exists|i: int| 0 <= i < r@.len() && #[trigger] r@[i].id@ == id,
            forall|i: int, j: int| 0 <= i < r@.len() && 0 <= j < r@.len() && #[trigger] r@[i].id@ == #[trigger] r@[j].id@ ==> i == j,
    {
        let keys = self.bookings.keys();
        let mut out: Vec<Booking> = Vec::new();
        let mut i: usize = 0;
        while i < keys.len()
            invariant
                self.wf(),
                i <= keys@.len(),
                forall|j: int| 0 <= j < keys@.len() ==> self.bookings@.contains_key(#[trigger] keys@[j]@),
                forall|k: Seq<char>| #[trigger] self.bookings@.contains_key(k) ==> exists|j: int| 0 <= j < keys@.len() && #[trigger] keys@[j]@ == k,
                forall|j: int| 0 <= j < out@.len() ==> self.bookings@.contains_key(#[trigger] out@[j].id@)
                    && self.bookings@[out@[j].id@] == out@[j] && out@[j].user_id@ == user_id@,
                forall|j: int| 0 <= j < i && self.bookings@[keys@[j]@].user_id@ == user_id@ ==> exists|a: int|
                    0 <= a < out@.len() && #[trigger] out@[a].id@ == #[trigger] keys@[j]@,
                forall|b: int, c: int| 0 <= b < keys@.len() && 0 <= c < keys@.len() && #[trigger] keys@[b]@ == #[trigger] keys@[c]@ ==> b == c,
                forall|a: int| #![trigger out@[a].id@] 0 <= a < out@.len() ==> exists|j: int| 0 <= j < i && #[trigger] keys@[j]@ == out@[a].id@,
                forall|a: int, c: int| 0 <= a < out@.len() && 0 <= c < out@.len() && #[trigger] out@[a].id@ == #[trigger] out@[c].id@ ==> a == c,
            decreases keys@.len() - i,
        {
            assert(self.bookings@.contains_key(keys@[i as int]@));
            match self.bookings.get(&keys[i]) {
                Some(b) => {
                    if b.user_id == *user_id {
                        let ghost prev = out@;
                        out.push(b.clone());
                        proof { self.lemma_stored_ids(); }
                        assert(out@[prev.len() as int].id@ == keys@[i as int]@);
                        assert forall|a: int| #![trigger out@[a].id@] 0 <= a < out@.len() implies exists|j: int| 0 <= j < i + 1 && #[trigger] keys@[j]@ == out@[a].id@ by {
                            if a < prev.len() {
                                assert(out@[a] == prev[a]);
                                let j = choose|j: int| 0 <= j < i && #[trigger] keys@[j]@ == prev[a].id@;
                                assert(keys@[j]@ == out@[a].id@);
                            } else {
                                assert(keys@[i as int]@ == out@[a].id@);
                            }
                        }
                        assert forall|a: int, c: int| 0 <= a < out@.len() && 0 <= c < out@.len() && #[trigger] out@[a].id@ == #[trigger] out@[c].id@ implies a == c by {
                            if a < prev.len() && c < prev.len() {
                                assert(out@[a] == prev[a] && out@[c] == prev[c]);
                            } else if a < prev.len() {
                                assert(out@[a] == prev[a]);
                                let j = choose|j: int| 0 <= j < i && #[trigger] keys@[j]@ == prev[a].id@;
                                assert(keys@[j]@ == keys@[i as int]@);
                            } else if c < prev.len() {
                                assert(out@[c] == prev[c]);
                                let j = choose|j: int| 0 <= j < i && #[trigger] keys@[j]@ == prev[c].id@;
                                assert(keys@[j]@ == keys@[i as int]@);
                            }
                        }
                        assert forall|j: int| 0 <= j < out@.len() implies self.bookings@.contains_key(#[trigger] out@[j].id@)
                            && self.bookings@[out@[j].id@] == out@[j] && out@[j].user_id@ == user_id@ by {
                            if j < prev.len() {
                                assert(out@[j] == prev[j]);
                            }
                        }
                        assert forall|j: int| 0 <= j < i + 1 && self.bookings@[keys@[j]@].user_id@ == user_id@ implies exists|a: int|
                            0 <= a < out@.len() && #[trigger] out@[a].id@ == #[trigger] keys@[j]@ by {
                            if j < i {
                                let a = choose|a: int| 0 <= a < prev.len() && #[trigger] prev[a].id@ == keys@[j]@;
                                assert(out@[a] == prev[a]);
                            } else {
                                assert(out@[prev.len() as int].id@ == keys@[j]@);
                            }
                        }
                    }
                },
                None => {},
            }
            i = i + 1;
        }
        assert forall|id: Seq<char>| #[trigger] self.bookings@.contains_key(id) && self.bookings@[id].user_id@ == user_id@
            implies exists|a: int| 0 <= a < out@.len() && #[trigger] out@[a].id@ == id by {
            let j = choose|j: int| 0 <= j < keys@.len() && #[trigger] keys@[j]@ == id;
            assert(self.bookings@[keys@[j]@].user_id@ == user_id@);
        }
        out
    }


    /// Stores `vehicle` under its id.
    pub fn save_vehicle(&mut self, vehicle: OwnedVehicle)
        requires
            old(self).wf(),
        ensures
            final(self).wf(),
            final(self).vehicles() == old(self).vehicles().insert(vehicle.id@, vehicle),
            final(self).users() == old(self).users(),
            final(self).usernames() == old(self).usernames(),
            final(self).emails() == old(self).emails(),
            final(self).sessions() == old(self).sessions(),
            final(self).lots() == old(self).lots(),
            final(self).slots() == old(self).slots(),
            final(self).bookings() == old(self).bookings(),
            final(self).waitlist() == old(self).waitlist(),
            final(self).settings() == old(self).settings(),
    {
        self.vehicles.insert(vehicle.id.clone(), vehicle);
    }

    /// The vehicle stored under `id`.
    pub fn get_vehicle(&self, id: &String) -> (r: Option<&OwnedVehicle>)
        requires
            self.wf(),
        ensures
            match r {
                Some(v) => self.vehicles().contains_key(id@) && self.vehicles()[id@] == *v && v.id@ == id@,
                None => !self.vehicles().contains_key(id@),
            },
    {
        self.vehicles.get(id)
    }

    /// Removes vehicle `id`; returns whether it was stored.
    pub fn delete_vehicle(&mut self, id: &String) -> (r: bool)
        requires
            old(self).wf(),
        ensures
            final(self).wf(),
            r == old(self).vehicles().contains_key(id@),
            final(self).vehicles() == old(self).vehicles().remove(id@),
            final(self).users() == old(self).users(),
            final(self).usernames() == old(self).usernames(),
            final(self).emails() == old(self).emails(),
            final(self).sessions() == old(self).sessions(),
            final(self).lots() == old(self).lots(),
            final(self).slots() == old(self).slots(),
            final(self).bookings() == old(self).bookings(),
            final(self).waitlist() == old(self).waitlist(),
            final(self).settings() == old(self).settings(),
    {
        self.vehicles.remove(id).is_some()
    }

    /// The ids of all vehicles, each once.
    pub fn vehicle_ids(&self) -> (r: Vec<String>)
        requires
            self.wf(),
        ensures
            forall|i: int| 0 <= i < r@.len() ==> self.vehicles().contains_key(#[trigger] r@[i]@),
            forall|k: Seq<char>| #[trigger] self.vehicles().contains_key(k) ==> exists|i: int| 0 <= i < r@.len() && #[trigger] r@[i]@ == k,
            forall|i: int, j: int| 0 <= i < r@.len() && 0 <= j < r@.len() && #[trigger] r@[i]@ == #[trigger] r@[j]@ ==> i == j,
    {
        self.vehicles.keys()
    }

    /// All vehicles of user `user_id`.
    pub fn list_vehicles_by_user(&self, user_id: &String) -> (r: Vec<OwnedVehicle>)
        requires
            self.wf(),
        ensures
            forall|i: int| 0 <= i < r@.len() ==> self.vehicles().contains_key(#[trigger] r@[i].id@)
                && self.vehicles()[r@[i].id@] == r@[i] && r@[i].user_id@ == user_id@,
            forall|id: Seq<char>| #[trigger] self.vehicles().contains_key(id) && self.vehicles()[id].user_id@ == user_id@
                ==> exists|i: int| 0 <= i < r@.len() && #[trigger] r@[i].id@ == id,
            forall|i: int, j: int| 0 <= i < r@.len() && 0 <= j < r@.len() && #[trigger] r@[i].id@ == #[trigger] r@[j].id@ ==> i == j,
    {
        let keys = self.vehicles.keys();
        let mut out: Vec<OwnedVehicle> = Vec::new();
        let mut i: usize = 0;
        while i < keys.len()
            invariant
                self.wf(),
                i <= keys@.len(),
                forall|j: int| 0 <= j < keys@.len() ==> self.vehicles@.contains_key(#[trigger] keys@[j]@),
                forall|k: Seq<char>| #[trigger] self.vehicles@.contains_key(k) ==> exists|j: int| 0 <= j < keys@.len() && #[trigger] keys@[j]@ == k,
                forall|j: int| 0 <= j < out@.len() ==> self.vehicles@.contains_key(#[trigger] out@[j].id@)
                    && self.vehicles@[out@[j].id@] == out@[j] && out@[j].user_id@ == user_id@,
                forall|j: int| 0 <= j < i && self.vehicles@[keys@[j]@].user_id@ == user_id@ ==> exists|a: int|
                    0 <= a < out@.len() && #[trigger] out@[a].id@ == #[trigger] keys@[j]@,
                forall|b: int, c: int| 0 <= b < keys@.len() && 0 <= c < keys@.len() && #[trigger] keys@[b]@ == #[trigger] keys@[c]@ ==> b == c,
                forall|a: int| #![trigger out@[a].id@] 0 <= a < out@.len() ==> exists|j: int| 0 <= j < i && #[trigger] keys@[j]@ == out@[a].id@,
                forall|a: int, c: int| 0 <= a < out@.len() && 0 <= c < out@.len() && #[trigger] out@[a].id@ == #[trigger] out@[c].id@ ==> a == c,
            decreases keys@.len() - i,
        {
            assert(self.vehicles@.contains_key(keys@[i as int]@));
            match self.vehicles.get(&keys[i]) {
                Some(v) => {
                    if v.user_id == *user_id {
                        let ghost prev = out@;
                        out.push(v.clone());
                        proof { self.lemma_stored_ids(); }
                        assert(out@[prev.len() as int].id@ == keys@[i as int]@);
                        assert forall|a: int| #![trigger out@[a].id@] 0 <= a < out@.len() implies exists|j: int| 0 <= j < i + 1 && #[trigger] keys@[j]@ == out@[a].id@ by {
                            if a < prev.len() {
                                assert(out@[a] == prev[a]);
                                let j = choose|j: int| 0 <= j < i && #[trigger] keys@[j]@ == prev[a].id@;
                                assert(keys@[j]@ == out@[a].id@);
                            } else {
                                assert(keys@[i as int]@ == out@[a].id@);
                            }
                        }
                        assert forall|a: int, c: int| 0 <= a < out@.len() && 0 <= c < out@.len() && #[trigger] out@[a].id@ == #[trigger] out@[c].id@ implies a == c by {
                            if a < prev.len() && c < prev.len() {
                                assert(out@[a] == prev[a] && out@[c] == prev[c]);
                            } else if a < prev.len() {
                                assert(out@[a] == prev[a]);
                                let j = choose|j: int| 0 <= j < i && #[trigger] keys@[j]@ == prev[a].id@;
                                assert(keys@[j]@ == keys@[i as int]@);
                            } else if c < prev.len() {
                                assert(out@[c] == prev[c]);
                                let j = choose|j: int| 0 <= j < i && #[trigger] keys@[j]@ == prev[c].id@;
                                assert(keys@[j]@ == keys@[i as int]@);
                            }
                        }
                        assert forall|j: int| 0 <= j < out@.len() implies self.vehicles@.contains_key(#[trigger] out@[j].id@)
                            && self.vehicles@[out@[j].id@] == out@[j] && out@[j].user_id@ == user_id@ by {
                            if j < prev.len() {
                                assert(out@[j] == prev[j]);
                            }
                        }
                        assert forall|j: int| 0 <= j < i + 1 && self.vehicles@[keys@[j]@].user_id@ == user_id@ implies exists|a: int|
                            0 <= a < out@.len() && #[trigger] out@[a].id@ == #[trigger] keys@[j]@ by {
                            if j < i {
                                let a = choose|a: int| 0 <= a < prev.len() && #[trigger] prev[a].id@ == keys@[j]@;
                                assert(out@[a] == prev[a]);
                            } else {
                                assert(out@[prev.len() as int].id@ == keys@[j]@);
                            }
                        }
                    }
                },
                None => {},
            }
            i = i + 1;
        }
        assert forall|id: Seq<char>| #[trigger] self.vehicles@.contains_key(id) && self.vehicles@[id].user_id@ == user_id@
            implies exists|a: int| 0 <= a < out@.len() && #[trigger] out@[a].id@ == id by {
            let j = choose|j: int| 0 <= j < keys@.len() && #[trigger] keys@[j]@ == id;
            assert(self.vehicles@[keys@[j]@].user_id@ == user_id@);
        }
        out
    }

    /// The keys of the lot table, each once.
    pub fn lot_ids(&self) -> (r: Vec<String>)
        requires
            self.wf(),
        ensures
            forall|i: int| 0 <= i < r@.len() ==> self.lots().contains_key(#[trigger] r@[i]@),
            forall|k: Seq<char>| #[trigger] self.lots().contains_key(k) ==> exists|i: int| 0 <= i < r@.len() && #[trigger] r@[i]@ == k,
            forall|i: int, j: int| 0 <= i < r@.len() && 0 <= j < r@.len() && #[trigger] r@[i]@ == #[trigger] r@[j]@ ==> i == j,
    {
        self.lots.keys()
    }

    /// The keys of the slot table, each once.
    pub fn slot_ids(&self) -> (r: Vec<String>)
        requires
            self.wf(),
        ensures
            forall|i: int| 0 <= i < r@.len() ==> self.slots().contains_key(#[trigger] r@[i]@),
            forall|k: Seq<char>| #[trigger] self.slots().contains_key(k) ==> exists|i: int| 0 <= i < r@.len() && #[trigger] r@[i]@ == k,
            forall|i: int, j: int| 0 <= i < r@.len() && 0 <= j < r@.len() && #[trigger] r@[i]@ == #[trigger] r@[j]@ ==> i == j,
    {
        self.slots.keys()
    }

    /// The keys of the session table, each once.
    pub fn session_tokens(&self) -> (r: Vec<String>)
        requires
            self.wf(),
        ensures
            forall|i: int| 0 <= i < r@.len() ==> self.sessions().contains_key(#[trigger] r@[i]@),
            forall|k: Seq<char>| #[trigger] self.sessions().contains_key(k) ==> exists|i: int| 0 <= i < r@.len() && #[trigger] r@[i]@ == k,
            forall|i: int, j: int| 0 <= i < r@.len() && 0 <= j < r@.len() && #[trigger] r@[i]@ == #[trigger] r@[j]@ ==> i == j,
    {
        self.sessions.keys()
    }

    /// The keys of the settings table, each once.
    pub fn setting_keys(&self) -> (r: Vec<String>)
        requires
            self.wf(),
        ensures
            forall|i: int| 0 <= i < r@.len() ==> self.settings().contains_key(#[trigger] r@[i]@),
            forall|k: Seq<char>| #[trigger] self.settings().contains_key(k) ==> exists|i: int| 0 <= i < r@.len() && #[trigger] r@[i]@ == k,
            forall|i: int, j: int| 0 <= i < r@.len() && 0 <= j < r@.len() && #[trigger] r@[i]@ == #[trigger] r@[j]@ ==> i == j,
    {
        self.settings.keys()
    }

    /// The keys of the user table, each once.
    pub fn user_ids(&self) -> (r: Vec<String>)
        requires
            self.wf(),
        ensures
            forall|i: int| 0 <= i < r@.len() ==> self.users().contains_key(#[trigger] r@[i]@),
            forall|k: Seq<char>| #[trigger] self.users().contains_key(k) ==> exists|i: int| 0 <= i < r@.len() && #[trigger] r@[i]@ == k,
            forall|i: int, j: int| 0 <= i < r@.len() && 0 <= j < r@.len() && #[trigger] r@[i]@ == #[trigger] r@[j]@ ==> i == j,
    {
        self.users.keys()
    }

    /// Records the layout version when none is stored yet.
    pub fn ensure_db_version(&mut self)
        requires
            old(self).wf(),
        ensures
            final(self).wf(),
            Self::same_but_settings(old(self), final(self)),
            old(self).settings().contains_key(SETTING_DB_VERSION@) ==> final(self).settings() == old(self).settings(),
            !old(self).settings().contains_key(SETTING_DB_VERSION@) ==> final(self).settings()
                == old(self).settings().insert(SETTING_DB_VERSION@, final(self).settings()[SETTING_DB_VERSION@])
                && final(self).settings()[SETTING_DB_VERSION@]@ == CURRENT_DB_VERSION@,
    {
        let key = String::from_str(SETTING_DB_VERSION);
        if !self.settings.contains(&key) {
            self.settings.insert(key, String::from_str(CURRENT_DB_VERSION));
        }
    }

    /// All lots, each once.
    pub fn list_parking_lots(&self) -> (r: Vec<ParkingLot>)
        requires
            self.wf(),
        ensures
            forall|i: int| 0 <= i < r@.len() ==> self.lots().contains_key(#[trigger] r@[i].id@)
                && self.lots()[r@[i].id@] == r@[i],
            forall|id: Seq<char>| #[trigger] self.lots().contains_key(id) ==> exists|i: int|
                0 <= i < r@.len() && #[trigger] r@[i].id@ == id,
            forall|i: int, j: int| 0 <= i < r@.len() && 0 <= j < r@.len() && #[trigger] r@[i].id@ == #[trigger] r@[j].id@ ==> i == j,
    {
        let out = self.lots.values();
        proof {
            self.lots.lemma_positions();
            assert forall|i: int| 0 <= i < out@.len() implies #[trigger] out@[i].id@ == self.lots.key_at(i) by {
                assert(self.lots@.contains_key(self.lots.key_at(i)));
                assert(cloned::<ParkingLot>(self.lots@[self.lots.key_at(i)], out@[i]));
            }
            assert forall|i: int, j: int| 0 <= i < out@.len() && 0 <= j < out@.len() && #[trigger] out@[i].id@ == #[trigger] out@[j].id@ implies i == j by {
                assert(self.lots.key_at(i) == self.lots.key_at(j));
            }
            self.lots.lemma_positions();
            assert forall|i: int| 0 <= i < out@.len() implies self.lots@.contains_key(#[trigger] out@[i].id@)
                && self.lots@[out@[i].id@] == out@[i] && out@[i].id@ == self.lots.key_at(i) by {
                assert(self.lots@.contains_key(self.lots.key_at(i)));
                assert(cloned::<ParkingLot>(self.lots@[self.lots.key_at(i)], out@[i]));
            }
            assert forall|id: Seq<char>| #[trigger] self.lots@.contains_key(id) implies exists|i: int|
                0 <= i < out@.len() && #[trigger] out@[i].id@ == id by {
                let i = choose|i: int| 0 <= i < self.lots.spec_len() && #[trigger] self.lots.key_at(i) == id;
                assert(self.lots@.contains_key(self.lots.key_at(i)));
                assert(out@[i].id@ == id);
            }
        }
        out
    }

    /// All bookings, each once.
    pub fn list_bookings(&self) -> (r: Vec<Booking>)
        requires
            self.wf(),
        ensures
            forall|i: int| 0 <= i < r@.len() ==> self.bookings().contains_key(#[trigger] r@[i].id@)
                && self.bookings()[r@[i].id@] == r@[i],
            forall|id: Seq<char>| #[trigger] self.bookings().contains_key(id) ==> exists|i: int|
                0 <= i < r@.len() && #[trigger] r@[i].id@ == id,
            forall|i: int, j: int| 0 <= i < r@.len() && 0 <= j < r@.len() && #[trigger] r@[i].id@ == #[trigger] r@[j].id@ ==> i == j,
    {
        let out = self.bookings.values();
        proof {
            self.bookings.lemma_positions();
            assert forall|i: int| 0 <= i < out@.len() implies #[trigger] out@[i].id@ == self.bookings.key_at(i) by {
                assert(self.bookings@.contains_key(self.bookings.key_at(i)));
                assert(cloned::<Booking>(self.bookings@[self.bookings.key_at(i)], out@[i]));
            }
            assert forall|i: int, j: int| 0 <= i < out@.len() && 0 <= j < out@.len() && #[trigger] out@[i].id@ == #[trigger] out@[j].id@ implies i == j by {
                assert(self.bookings.key_at(i) == self.bookings.key_at(j));
            }
            self.bookings.lemma_positions();
            assert forall|i: int| 0 <= i < out@.len() implies self.bookings@.contains_key(#[trigger] out@[i].id@)
                && self.bookings@[out@[i].id@] == out@[i] && out@[i].id@ == self.bookings.key_at(i) by {
                assert(self.bookings@.contains_key(self.bookings.key_at(i)));
                assert(cloned::<Booking>(self.bookings@[self.bookings.key_at(i)], out@[i]));
            }
            assert forall|id: Seq<char>| #[trigger] self.bookings@.contains_key(id) implies exists|i: int|
                0 <= i < out@.len() && #[trigger] out@[i].id@ == id by {
                let i = choose|i: int| 0 <= i < self.bookings.spec_len() && #[trigger] self.bookings.key_at(i) == id;
                assert(self.bookings@.contains_key(self.bookings.key_at(i)));
                assert(out@[i].id@ == id);
            }
        }
        out
    }

    /// All waitlist entries, each once.
    pub fn list_all_waitlist(&self) -> (r: Vec<WaitlistEntry>)
        requires
            self.wf(),
        ensures
            forall|i: int| 0 <= i < r@.len() ==> self.waitlist().contains_key(#[trigger] r@[i].id@)
                && self.waitlist()[r@[i].id@] == r@[i],
            forall|id: Seq<char>| #[trigger] self.waitlist().contains_key(id) ==> exists|i: int|
                0 <= i < r@.len() && #[trigger] r@[i].id@ == id,
            forall|i: int, j: int| 0 <= i < r@.len() && 0 <= j < r@.len() && #[trigger] r@[i].id@ == #[trigger] r@[j].id@ ==> i == j,
    {
        let out = self.waitlist.values();
        proof {
            self.waitlist.lemma_positions();
            assert forall|i: int| 0 <= i < out@.len() implies #[trigger] out@[i].id@ == self.waitlist.key_at(i) by {
                assert(self.waitlist@.contains_key(self.waitlist.key_at(i)));
                assert(cloned::<WaitlistEntry>(self.waitlist@[self.waitlist.key_at(i)], out@[i]));
            }
            assert forall|i: int, j: int| 0 <= i < out@.len() && 0 <= j < out@.len() && #[trigger] out@[i].id@ == #[trigger] out@[j].id@ implies i == j by {
                assert(self.waitlist.key_at(i) == self.waitlist.key_at(j));
            }
            self.waitlist.lemma_positions();
            assert forall|i: int| 0 <= i < out@.len() implies self.waitlist@.contains_key(#[trigger] out@[i].id@)
                && self.waitlist@[out@[i].id@] == out@[i] && out@[i].id@ == self.waitlist.key_at(i) by {
                assert(self.waitlist@.contains_key(self.waitlist.key_at(i)));
                assert(cloned::<WaitlistEntry>(self.waitlist@[self.waitlist.key_at(i)], out@[i]));
            }
            assert forall|id: Seq<char>| #[trigger] self.waitlist@.contains_key(id) implies exists|i: int|
                0 <= i < out@.len() && #[trigger] out@[i].id@ == id by {
                let i = choose|i: int| 0 <= i < self.waitlist.spec_len() && #[trigger] self.waitlist.key_at(i) == id;
                assert(self.waitlist@.contains_key(self.waitlist.key_at(i)));
                assert(out@[i].id@ == id);
            }
        }
        out
    }

    /// Whether some booking holds slot `slot_id`.
    pub fn slot_occupied(&self, slot_id: &String) -> (r: bool)
        requires
            self.wf(),
        ensures
            r == slot_taken(self.bookings(), slot_id@),
    {
        let keys = self.bookings.keys();
        let mut i: usize = 0;
        while i < keys.len()
            invariant
                self.wf(),
                i <= keys@.len(),
                forall|j: int| 0 <= j < keys@.len() ==> self.bookings@.contains_key(#[trigger] keys@[j]@),
                forall|k: Seq<char>| #[trigger] self.bookings@.contains_key(k) ==> exists|j: int| 0 <= j < keys@.len() && #[trigger] keys@[j]@ == k,
                forall|j: int| 0 <= j < i ==> !holds_slot(self.bookings@[#[trigger] keys@[j]@], slot_id@),
            decreases keys@.len() - i,
        {
            assert(self.bookings@.contains_key(keys@[i as int]@));
            match self.bookings.get(&keys[i]) {
                Some(b) => {
                    if b.slot_id == *slot_id && (b.status == BookingStatus::Confirmed || b.status == BookingStatus::Active) {
                        return true;
                    }
                },
                None => {},
            }
            i = i + 1;
        }
        assert forall|k: Seq<char>| #[trigger] self.bookings@.contains_key(k) implies !holds_slot(self.bookings@[k], slot_id@) by {
            let j = choose|j: int| 0 <= j < keys@.len() && #[trigger] keys@[j]@ == k;
            assert(!holds_slot(self.bookings@[keys@[j]@], slot_id@));
        }
        false
    }
}

} // verus!
