use vstd::prelude::*;

use crate::migrate::{
    default_plan, distinct_versions, has_reversible, last_reversible, ledger_contains,
    lemma_last_reversible, lemma_remove_version_absent, lemma_remove_version_at, remove_version,
    spec_migrate, Migration,
};
use crate::models::Response;
use crate::{AppError, Login, Site, User};

verus! {

/// The logical content of the store: the five entity tables, the static
/// migration plan, and the gateway's clock (the largest timestamp issued
/// so far).
#[verifier::ext_equal]
pub ghost struct DbView {
    pub users: Seq<User>,
    pub logins: Seq<Login>,
    pub sites: Seq<Site>,
    pub responses: Seq<Response>,
    pub migrations: Seq<Migration>,
    pub ledger: Seq<i64>,
    pub clock: int,
}

/// The storage gateway. It is the sole owner of the persisted state:
/// users, logins, sites, probe responses, and the migration ledger.
/// Every write stamps timestamps from the gateway's own clock, which
/// never runs backwards.
pub struct Database {
    users: Vec<User>,
    logins: Vec<Login>,
    sites: Vec<Site>,
    responses: Vec<Response>,
    migrations: Vec<Migration>,
    ledger: Vec<i64>,
    clock: i64,
}

impl View for Database {
    type V = DbView;

    closed spec fn view(&self) -> DbView {
        DbView {
            users: self.users@,
            logins: self.logins@,
            sites: self.sites@,
            responses: self.responses@,
            migrations: self.migrations@,
            ledger: self.ledger@,
            clock: self.clock as int,
        }
    }
}

pub open spec fn user_row_wf(u: User, i: int, clock: int) -> bool {
    &&& u.id == i + 1
    &&& 0 <= u.created_at
    &&& u.created_at <= u.updated_at <= clock
}

pub open spec fn login_row_wf(l: Login, i: int, clock: int) -> bool {
    &&& l.id == i + 1
    &&& 0 <= l.created_at <= clock
}

pub open spec fn site_row_wf(s: Site, i: int, clock: int) -> bool {
    &&& s.id == i + 1
    &&& 0 <= s.created_at
    &&& s.created_at <= s.updated_at <= clock
    &&& s.url@.len() > 0
}

pub open spec fn response_row_wf(r: Response, i: int, clock: int) -> bool {
    &&& r.id == i + 1
    &&& 0 <= r.created_at
    &&& r.created_at <= r.updated_at <= clock
}

/// Well-formedness of the store: row ids are dense and storage-generated,
/// login codes are unique across users, at most one response row exists
/// per (status_code, site_id) pair, site URLs are non-empty, migration
/// plan versions and ledger entries are unique, and no stored timestamp
/// lies beyond the clock.
pub open spec fn db_view_wf(v: DbView) -> bool {
    &&& 0 <= v.clock <= i64::MAX
    &&& v.users.len() <= i64::MAX as int
    &&& v.logins.len() <= i64::MAX as int
    &&& v.sites.len() <= i64::MAX as int
    &&& v.responses.len() <= i64::MAX as int
    &&& forall|i: int| 0 <= i < v.users.len() ==> user_row_wf(#[trigger] v.users[i], i, v.clock)
    &&& forall|i: int|
        0 <= i < v.logins.len() ==> login_row_wf(#[trigger] v.logins[i], i, v.clock)
    &&& forall|i: int| 0 <= i < v.sites.len() ==> site_row_wf(#[trigger] v.sites[i], i, v.clock)
    &&& forall|i: int|
        0 <= i < v.responses.len() ==> response_row_wf(#[trigger] v.responses[i], i, v.clock)
    &&& distinct_codes(v.users)
    &&& distinct_pairs(v.responses)
    &&& logins_reference_users(v.logins, v.users.len() as int)
    &&& distinct_versions(v.migrations)
    &&& forall|i: int, j: int|
        0 <= i < j < v.ledger.len() ==> #[trigger] v.ledger[i] != #[trigger] v.ledger[j]
}

/// Every login row references an existing user: user ids are dense, so
/// the reference holds exactly when the id lies within the table.
pub open spec fn logins_reference_users(logins: Seq<Login>, n_users: int) -> bool {
    forall|i: int| 0 <= i < logins.len() ==> 1 <= (#[trigger] logins[i]).user_id <= n_users
}

/// Login codes are pairwise distinct across users.
pub open spec fn distinct_codes(users: Seq<User>) -> bool {
    forall|i: int, j: int|
        0 <= i < j < users.len() ==> (#[trigger] users[i]).login_code@ != (
        #[trigger] users[j]).login_code@
}

/// `r` is the response row for the pair (`status_code`, `site_id`).
pub open spec fn resp_matches(r: Response, status_code: i64, site_id: i64) -> bool {
    r.status_code == status_code && r.site_id == site_id
}

/// Some row of `s` carries the pair (`status_code`, `site_id`).
pub open spec fn has_pair(s: Seq<Response>, status_code: i64, site_id: i64) -> bool {
    exists|i: int| 0 <= i < s.len() && resp_matches(#[trigger] s[i], status_code, site_id)
}

/// The index of the row carrying the pair (`status_code`, `site_id`);
/// meaningful only where `has_pair` holds, and unique under
/// `distinct_pairs`.
pub open spec fn pair_index(s: Seq<Response>, status_code: i64, site_id: i64) -> int {
    choose|i: int| 0 <= i < s.len() && resp_matches(#[trigger] s[i], status_code, site_id)
}

/// At most one row exists per (status_code, site_id) pair.
pub open spec fn distinct_pairs(s: Seq<Response>) -> bool {
    forall|i: int, j: int|
        0 <= i < j < s.len() ==> !((#[trigger] s[i]).status_code == (#[trigger] s[j]).status_code
            && s[i].site_id == s[j].site_id)
}

/// Some row of `s` belongs to `site_id`.
pub open spec fn has_site_row(s: Seq<Response>, site_id: i64) -> bool {
    exists|i: int| 0 <= i < s.len() && (#[trigger] s[i]).site_id == site_id
}

/// Under `distinct_pairs`, the row found at `k` is the one `pair_index`
/// names.
pub proof fn lemma_pair_index(s: Seq<Response>, k: int)
    requires
        distinct_pairs(s),
        0 <= k < s.len(),
    ensures
        pair_index(s, s[k].status_code, s[k].site_id) == k,
{
    let sc = s[k].status_code;
    let sid = s[k].site_id;
    assert(resp_matches(s[k], sc, sid));
    assert(has_pair(s, sc, sid));
    let j = pair_index(s, sc, sid);
    assert(0 <= j < s.len() && resp_matches(s[j], sc, sid));
    if j != k {
        if j < k {
            assert(!(s[j].status_code == s[k].status_code && s[j].site_id == s[k].site_id));
        } else {
            assert(!(s[k].status_code == s[j].status_code && s[k].site_id == s[j].site_id));
        }
    }
}

/// No user of `users` already carries `code` as its login code.
pub open spec fn code_is_fresh(users: Seq<User>, code: Seq<char>) -> bool {
    forall|i: int| 0 <= i < users.len() ==> (#[trigger] users[i]).login_code@ != code
}

/// A character of the URL-safe identifier alphabet.
pub open spec fn is_safe_code_char(c: char) -> bool {
    ('a' <= c && c <= 'z') || ('A' <= c && c <= 'Z') || ('0' <= c && c <= '9') || c == '_' || c
        == '-'
}

/// The sites owned by one user, in storage order.
pub open spec fn sites_of(s: Seq<Site>, user_id: i64) -> Seq<Site>
    decreases s.len(),
{
    if s.len() == 0 {
        Seq::empty()
    } else {
        let rest = sites_of(s.drop_last(), user_id);
        if s.last().user_id == user_id {
            rest.push(s.last())
        } else {
            rest
        }
    }
}

/// The number of login rows recorded for one user.
pub open spec fn count_logins(s: Seq<Login>, user_id: i64) -> nat
    decreases s.len(),
{
    if s.len() == 0 {
        0
    } else {
        count_logins(s.drop_last(), user_id) + if s.last().user_id == user_id {
            1nat
        } else {
            0nat
        }
    }
}

/// A user no row references has a login count of zero.
pub proof fn lemma_count_logins_absent(s: Seq<Login>, user_id: i64)
    requires
        forall|i: int| 0 <= i < s.len() ==> (#[trigger] s[i]).user_id != user_id,
    ensures
        count_logins(s, user_id) == 0,
    decreases s.len(),
{
    if s.len() > 0 {
        assert forall|i: int| 0 <= i < s.drop_last().len() implies (
        #[trigger] s.drop_last()[i]).user_id != user_id by {
            assert(s.drop_last()[i] == s[i]);
        }
        lemma_count_logins_absent(s.drop_last(), user_id);
    }
}

/// Appending one row raises the count for its user by one and leaves
/// every other user's count unchanged.
pub proof fn lemma_count_logins_push(s: Seq<Login>, l: Login, user_id: i64)
    ensures
        count_logins(s.push(l), user_id) == count_logins(s, user_id) + if l.user_id == user_id {
            1int
        } else {
            0int
        },
{
    assert(s.push(l).drop_last() =~= s);
    assert(s.push(l).last() == l);
}

/// All row sequences equal, the clock no older and still in range:
/// well-formedness carries over.
proof fn lemma_wf_frame(pre: DbView, post: DbView)
    requires
        db_view_wf(pre),
        pre.clock <= post.clock <= i64::MAX,
        post.users == pre.users,
        post.logins == pre.logins,
        post.sites == pre.sites,
        post.responses == pre.responses,
        post.migrations == pre.migrations,
        post.ledger == pre.ledger,
    ensures
        db_view_wf(post),
{
    assert forall|i: int| 0 <= i < post.users.len() implies user_row_wf(
        #[trigger] post.users[i],
        i,
        post.clock,
    ) by {
        assert(user_row_wf(pre.users[i], i, pre.clock));
    }
    assert forall|i: int| 0 <= i < post.logins.len() implies login_row_wf(
        #[trigger] post.logins[i],
        i,
        post.clock,
    ) by {
        assert(login_row_wf(pre.logins[i], i, pre.clock));
    }
    assert forall|i: int| 0 <= i < post.sites.len() implies site_row_wf(
        #[trigger] post.sites[i],
        i,
        post.clock,
    ) by {
        assert(site_row_wf(pre.sites[i], i, pre.clock));
    }
    assert forall|i: int| 0 <= i < post.responses.len() implies response_row_wf(
        #[trigger] post.responses[i],
        i,
        post.clock,
    ) by {
        assert(response_row_wf(pre.responses[i], i, pre.clock));
    }
}

/// Relies on nanoid::format with the URL-safe default alphabet and the
/// default random source: a fresh random 21-character identifier drawn
/// from A-Za-z0-9_-.
#[verifier::external_body]
fn new_login_code() -> (r: String)
    ensures
        r@.len() == 21,
        forall|i: int| 0 <= i < r@.len() ==> is_safe_code_char(#[trigger] r@[i]),
{
    nanoid::format(nanoid::rngs::default, &nanoid::alphabet::SAFE, 21)
}

/// Relies on std::time::SystemTime::now: whole seconds since the Unix
/// epoch, clamped to the i64 range; 0 if the system clock reads earlier
/// than the epoch.
#[verifier::external_body]
fn wall_clock_seconds() -> (t: i64)
    ensures
        0 <= t,
{
    match std::time::SystemTime::now().duration_since(std::time::UNIX_EPOCH) {
        Ok(d) => {
            let s = d.as_secs();
            if s > i64::MAX as u64 {
                i64::MAX
            } else {
                s as i64
            }
        },
        Err(_) => 0,
    }
}

impl Database {
    pub open spec fn wf(&self) -> bool {
        db_view_wf(self@)
    }

    /// A gateway over an empty store, carrying the shipped migration plan.
    pub fn new() -> (r: Database)
        ensures
            r.wf(),
            r@.users == Seq::<User>::empty(),
            r@.logins == Seq::<Login>::empty(),
            r@.sites == Seq::<Site>::empty(),
            r@.responses == Seq::<Response>::empty(),
            r@.migrations == default_plan(),
            r@.ledger == Seq::<i64>::empty(),
            r@.clock == 0,
    {
        let mut migrations: Vec<Migration> = Vec::new();
        migrations.push(Migration { version: 1, reversible: true });
        migrations.push(Migration { version: 2, reversible: true });
        migrations.push(Migration { version: 3, reversible: true });
        migrations.push(Migration { version: 4, reversible: true });
        proof {
            assert(migrations@ =~= default_plan());
        }
        Database {
            users: Vec::new(),
            logins: Vec::new(),
            sites: Vec::new(),
            responses: Vec::new(),
            migrations,
            ledger: Vec::new(),
            clock: 0,
        }
    }

    /// A gateway over an empty store with a caller-supplied migration
    /// plan; rejected if two plan entries share a version.
    pub fn with_migrations(plan: Vec<Migration>) -> (r: Result<Database, AppError>)
        ensures
            (r is Ok <==> distinct_versions(plan@)),
            r is Err ==> r->Err_0 == AppError::Migrate,
            r is Ok ==> ({
                let db = r->Ok_0;
                &&& db.wf()
                &&& db@.users == Seq::<User>::empty()
                &&& db@.logins == Seq::<Login>::empty()
                &&& db@.sites == Seq::<Site>::empty()
                &&& db@.responses == Seq::<Response>::empty()
                &&& db@.migrations == plan@
                &&& db@.ledger == Seq::<i64>::empty()
                &&& db@.clock == 0
            }),
    {
        let n = plan.len();
        let mut i: usize = 0;
        while i < n
            invariant
                i <= n,
                n == plan@.len(),
                forall|p: int, q: int|
                    0 <= p < q < n && p < i ==> (#[trigger] plan@[p]).version != (
                    #[trigger] plan@[q]).version,
            decreases n - i,
        {
            let mut j: usize = i + 1;
            while j < n
                invariant
                    i < j <= n,
                    n == plan@.len(),
                    forall|q: int|
                        i < q < j ==> (#[trigger] plan@[q]).version != plan@[i as int].version,
                decreases n - j,
            {
                if plan[j].version == plan[i].version {
                    return Err(AppError::Migrate);
                }
                j += 1;
            }
            i += 1;
        }
        Ok(
            Database {
                users: Vec::new(),
                logins: Vec::new(),
                sites: Vec::new(),
                responses: Vec::new(),
                migrations: plan,
                ledger: Vec::new(),
                clock: 0,
            },
        )
    }

    /// Issues the next timestamp from the gateway's clock: the wall
    /// clock when it is ahead, and otherwise one past the last issued
    /// stamp, so that stamps never run backwards and strictly advance
    /// while the clock has room.
    fn next_stamp(&mut self) -> (t: i64)
        requires
            old(self).wf(),
        ensures
            final(self).wf(),
            final(self)@.users == old(self)@.users,
            final(self)@.logins == old(self)@.logins,
            final(self)@.sites == old(self)@.sites,
            final(self)@.responses == old(self)@.responses,
            final(self)@.migrations == old(self)@.migrations,
            final(self)@.ledger == old(self)@.ledger,
            t == final(self)@.clock,
            old(self)@.clock <= t,
            old(self)@.clock < i64::MAX ==> old(self)@.clock < t,
    {
        let wall = wall_clock_seconds();
        let t = if wall > self.clock {
            wall
        } else if self.clock < i64::MAX {
            self.clock + 1
        } else {
            self.clock
        };
        self.clock = t;
        proof {
            lemma_wf_frame(old(self)@, self@);
        }
        t
    }

    /// Records one successful authentication for `new_login.user_id`,
    /// which must reference an existing user; the stored row gets a
    /// storage-generated id and the gateway's own stamp. Only the
    /// `user_id` of the argument is consulted.
    pub fn insert_login(&mut self, new_login: Login) -> (r: Result<Login, AppError>)
        requires
            old(self).wf(),
        ensures
            final(self).wf(),
            final(self)@.users == old(self)@.users,
            final(self)@.sites == old(self)@.sites,
            final(self)@.responses == old(self)@.responses,
            final(self)@.migrations == old(self)@.migrations,
            final(self)@.ledger == old(self)@.ledger,
            old(self)@.clock <= final(self)@.clock,
            (r is Ok <==> 1 <= new_login.user_id <= old(self)@.users.len()
                && old(self)@.logins.len() < i64::MAX as int),
            r is Ok ==> ({
                let l = r->Ok_0;
                &&& l.user_id == new_login.user_id
                &&& l.id == old(self)@.logins.len() + 1
                &&& l.created_at == final(self)@.clock
                &&& final(self)@.logins == old(self)@.logins.push(l)
                &&& count_logins(final(self)@.logins, new_login.user_id) == count_logins(
                    old(self)@.logins,
                    new_login.user_id,
                ) + 1
                &&& forall|uid: i64|
                    uid != new_login.user_id ==> count_logins(final(self)@.logins, uid)
                        == count_logins(old(self)@.logins, uid)
            }),
            r is Err ==> r->Err_0 == AppError::DatabaseInsert && final(self)@ == old(self)@,
    {
        if new_login.user_id < 1 || new_login.user_id as u64 > self.users.len() as u64 {
            return Err(AppError::DatabaseInsert);
        }
        if self.logins.len() as u64 >= i64::MAX as u64 {
            return Err(AppError::DatabaseInsert);
        }
        let t = self.next_stamp();
        let id = self.logins.len() as i64 + 1;
        let row = Login { id, user_id: new_login.user_id, created_at: t };
        self.logins.push(row);
        proof {
            let pre = old(self)@;
            let post = self@;
            assert forall|i: int| 0 <= i < post.logins.len() implies login_row_wf(
                #[trigger] post.logins[i],
                i,
                post.clock,
            ) by {
                if i < pre.logins.len() {
                    assert(post.logins[i] == pre.logins[i]);
                    assert(login_row_wf(pre.logins[i], i, pre.clock));
                }
            }
            assert forall|p: int| 0 <= p < post.logins.len() implies 1 <= (
            #[trigger] post.logins[p]).user_id <= post.users.len() by {
                if p < pre.logins.len() {
                    assert(post.logins[p] == pre.logins[p]);
                }
            }
            lemma_count_logins_push(pre.logins, row, new_login.user_id);
            assert forall|uid: i64| uid != new_login.user_id implies count_logins(
                post.logins,
                uid,
            ) == count_logins(pre.logins, uid) by {
                lemma_count_logins_push(pre.logins, row, uid);
            }
        }
        Ok(row)
    }

    /// How many login rows a user has; 1 right after signup, and one
    /// more after each later successful login.
    pub fn login_count(&self, user_id: i64) -> (r: i64)
        requires
            self.wf(),
        ensures
            r == count_logins(self@.logins, user_id),
    {
        let n = self.logins.len();
        let mut c: i64 = 0;
        let mut i: usize = 0;
        while i < n
            invariant
                i <= n,
                n == self@.logins.len(),
                self.wf(),
                0 <= c <= i,
                c == count_logins(self@.logins.take(i as int), user_id),
            decreases n - i,
        {
            proof {
                assert(self@.logins.take(i + 1).drop_last() =~= self@.logins.take(i as int));
                assert(self@.logins.take(i + 1).last() == self@.logins[i as int]);
            }
            if self.logins[i].user_id == user_id {
                c += 1;
            }
            i += 1;
        }
        proof {
            assert(self@.logins.take(n as int) =~= self@.logins);
        }
        c
    }

    /// Creates the account for a caller-supplied login code: rejected
    /// when the code is already taken (the store's uniqueness constraint
    /// on login codes) or the table is full, and otherwise stored with a
    /// fresh id and the gateway's stamp.
    pub fn insert_user_with_code(&mut self, login_code: String) -> (r: Result<User, AppError>)
        requires
            old(self).wf(),
        ensures
            final(self).wf(),
            final(self)@.logins == old(self)@.logins,
            final(self)@.sites == old(self)@.sites,
            final(self)@.responses == old(self)@.responses,
            final(self)@.migrations == old(self)@.migrations,
            final(self)@.ledger == old(self)@.ledger,
            old(self)@.clock <= final(self)@.clock,
            (r is Ok <==> code_is_fresh(old(self)@.users, login_code@) && old(self)@.users.len()
                < i64::MAX as int),
            r is Ok ==> ({
                let u = r->Ok_0;
                &&& u.id == old(self)@.users.len() + 1
                &&& u.login_code@ == login_code@
                &&& u.created_at == final(self)@.clock
                &&& u.updated_at == u.created_at
                &&& old(self)@.clock < i64::MAX ==> u.created_at > old(self)@.clock
                &&& final(self)@.users == old(self)@.users.push(u)
            }),
            r is Err ==> r->Err_0 == AppError::DatabaseInsert && final(self)@ == old(self)@,
    {
        let n = self.users.len();
        let mut i: usize = 0;
        while i < n
            invariant
                i <= n,
                n == self@.users.len(),
                self.wf(),
                self@ == old(self)@,
                forall|k: int|
                    0 <= k < i ==> (#[trigger] self@.users[k]).login_code@ != login_code@,
            decreases n - i,
        {
            if self.users[i].login_code == login_code {
                return Err(AppError::DatabaseInsert);
            }
            i += 1;
        }
        if self.users.len() as u64 >= i64::MAX as u64 {
            return Err(AppError::DatabaseInsert);
        }
        let t = self.next_stamp();
        let id = self.users.len() as i64 + 1;
        let row = User { id, login_code, created_at: t, updated_at: t };
        let copy = row.clone();
        self.users.push(row);
        proof {
            let pre = old(self)@;
            let post = self@;
            assert forall|p: int| 0 <= p < post.users.len() implies user_row_wf(
                #[trigger] post.users[p],
                p,
                post.clock,
            ) by {
                if p < pre.users.len() {
                    assert(post.users[p] == pre.users[p]);
                    assert(user_row_wf(pre.users[p], p, pre.clock));
                }
            }
            assert forall|p: int, q: int| 0 <= p < q < post.users.len() implies (
            #[trigger] post.users[p]).login_code@ != (#[trigger] post.users[q]).login_code@ by {
                if q < pre.users.len() {
                    assert(pre.users[p].login_code@ != pre.users[q].login_code@);
                }
            }
            assert forall|p: int| 0 <= p < post.logins.len() implies 1 <= (
            #[trigger] post.logins[p]).user_id <= post.users.len() by {
                assert(1 <= pre.logins[p].user_id <= pre.users.len());
            }
        }
        Ok(copy)
    }

    /// Signs a new account up: generates the fresh random login code,
    /// stamps both timestamps with the gateway's clock, and stores the
    /// row. Fails only when the generated code collides with an existing
    /// one or the table is full; in particular it succeeds on an empty
    /// store, and a failure leaves behind evidence of the collision (an
    /// existing user whose code has the generated length).
    pub fn insert_user(&mut self) -> (r: Result<User, AppError>)
        requires
            old(self).wf(),
        ensures
            final(self).wf(),
            final(self)@.logins == old(self)@.logins,
            final(self)@.sites == old(self)@.sites,
            final(self)@.responses == old(self)@.responses,
            final(self)@.migrations == old(self)@.migrations,
            final(self)@.ledger == old(self)@.ledger,
            old(self)@.clock <= final(self)@.clock,
            old(self)@.users.len() == 0 ==> r is Ok,
            r is Ok ==> ({
                let u = r->Ok_0;
                &&& code_is_fresh(old(self)@.users, u.login_code@)
                &&& u.login_code@.len() == 21
                &&& u.id == old(self)@.users.len() + 1
                &&& u.created_at == final(self)@.clock
                &&& u.updated_at == u.created_at
                &&& final(self)@.users == old(self)@.users.push(u)
            }),
            r is Err ==> r->Err_0 == AppError::DatabaseInsert && final(self)@ == old(self)@,
            r is Err ==> old(self)@.users.len() >= i64::MAX as int || exists|i: int|
                0 <= i < old(self)@.users.len() && (#[trigger] old(
                    self,
                )@.users[i]).login_code@.len() == 21,
    {
        let login_code = new_login_code();
        let ghost code_view = login_code@;
        let r = self.insert_user_with_code(login_code);
        proof {
            if r is Err && old(self)@.users.len() < i64::MAX as int {
                assert(!code_is_fresh(old(self)@.users, code_view));
                let i = choose|i: int|
                    0 <= i < old(self)@.users.len() && (#[trigger] old(
                        self,
                    )@.users[i]).login_code@ == code_view;
                assert(old(self)@.users[i].login_code@.len() == 21);
            }
        }
        r
    }

    /// Point lookup of a user by its storage-generated id.
    pub fn user_by_id(&self, id: i64) -> (r: Result<User, AppError>)
        requires
            self.wf(),
        ensures
            (r is Ok <==> 1 <= id <= self@.users.len()),
            r is Ok ==> r->Ok_0 == self@.users[id - 1] && r->Ok_0.id == id,
            r is Err ==> r->Err_0 == AppError::DatabaseSelect,
    {
        if id >= 1 && (id as u64) <= (self.users.len() as u64) {
            Ok(self.users[(id - 1) as usize].clone())
        } else {
            Err(AppError::DatabaseSelect)
        }
    }

    /// Point lookup of a user by its login code.
    pub fn user_by_login_code(&self, login_code: String) -> (r: Result<User, AppError>)
        requires
            self.wf(),
        ensures
            (r is Ok <==> !code_is_fresh(self@.users, login_code@)),
            r is Ok ==> exists|i: int|
                0 <= i < self@.users.len() && (#[trigger] self@.users[i]) == r->Ok_0,
            r is Ok ==> r->Ok_0.login_code@ == login_code@,
            r is Err ==> r->Err_0 == AppError::DatabaseSelect,
    {
        let n = self.users.len();
        let mut i: usize = 0;
        while i < n
            invariant
                i <= n,
                n == self@.users.len(),
                self.wf(),
                forall|k: int|
                    0 <= k < i ==> (#[trigger] self@.users[k]).login_code@ != login_code@,
            decreases n - i,
        {
            if self.users[i].login_code == login_code {
                return Ok(self.users[i].clone());
            }
            i += 1;
        }
        Err(AppError::DatabaseSelect)
    }

    /// Registers a monitored target for `site.user_id`: rejected when
    /// the URL is empty (no row is written), and otherwise stored with a
    /// fresh id, no display name yet, and the gateway's stamp. Only the
    /// `user_id` and `url` of the argument are consulted.
    pub fn insert_site(&mut self, site: Site) -> (r: Result<Site, AppError>)
        requires
            old(self).wf(),
        ensures
            final(self).wf(),
            final(self)@.users == old(self)@.users,
            final(self)@.logins == old(self)@.logins,
            final(self)@.responses == old(self)@.responses,
            final(self)@.migrations == old(self)@.migrations,
            final(self)@.ledger == old(self)@.ledger,
            old(self)@.clock <= final(self)@.clock,
            (r is Ok <==> site.url@.len() > 0 && old(self)@.sites.len() < i64::MAX as int),
            site.url@.len() == 0 ==> r is Err && r->Err_0 == AppError::UrlEmpty,
            r is Err && site.url@.len() > 0 ==> r->Err_0 == AppError::DatabaseInsert,
            r is Err ==> final(self)@ == old(self)@,
            r is Ok ==> ({
                let s = r->Ok_0;
                &&& s.id == old(self)@.sites.len() + 1
                &&& s.user_id == site.user_id
                &&& s.url@ == site.url@
                &&& s.name is None
                &&& s.created_at == final(self)@.clock
                &&& s.updated_at == s.created_at
                &&& old(self)@.clock < i64::MAX ==> s.created_at > old(self)@.clock
                &&& final(self)@.sites == old(self)@.sites.push(s)
                &&& sites_of(final(self)@.sites, site.user_id) == sites_of(
                    old(self)@.sites,
                    site.user_id,
                ).push(s)
                &&& forall|uid: i64|
                    uid != site.user_id ==> sites_of(final(self)@.sites, uid) == sites_of(
                        old(self)@.sites,
                        uid,
                    )
            }),
    {
        if site.url.as_str().is_empty() {
            return Err(AppError::UrlEmpty);
        }
        if self.sites.len() as u64 >= i64::MAX as u64 {
            return Err(AppError::DatabaseInsert);
        }
        let t = self.next_stamp();
        let id = self.sites.len() as i64 + 1;
        let row = Site {
            id,
            user_id: site.user_id,
            url: site.url,
            name: None,
            created_at: t,
            updated_at: t,
        };
        let copy = row.clone();
        self.sites.push(row);
        proof {
            let pre = old(self)@;
            let post = self@;
            assert forall|p: int| 0 <= p < post.sites.len() implies site_row_wf(
                #[trigger] post.sites[p],
                p,
                post.clock,
            ) by {
                if p < pre.sites.len() {
                    assert(post.sites[p] == pre.sites[p]);
                    assert(site_row_wf(pre.sites[p], p, pre.clock));
                }
            }
            lemma_sites_of_push(pre.sites, copy, site.user_id);
            assert forall|uid: i64| uid != site.user_id implies sites_of(post.sites, uid)
                == sites_of(pre.sites, uid) by {
                lemma_sites_of_push(pre.sites, copy, uid);
            }
        }
        Ok(copy)
    }

    /// All monitored sites across all owners, in storage order; this is
    /// what the scheduler probes on each tick.
    pub fn sites(&self) -> (r: Result<Vec<Site>, AppError>)
        requires
            self.wf(),
        ensures
            r is Ok,
            r->Ok_0@ == self@.sites,
    {
        let n = self.sites.len();
        let mut out: Vec<Site> = Vec::new();
        let mut i: usize = 0;
        while i < n
            invariant
                i <= n,
                n == self@.sites.len(),
                out@ == self@.sites.take(i as int),
            decreases n - i,
        {
            out.push(self.sites[i].clone());
            proof {
                assert(out@ =~= self@.sites.take(i + 1));
            }
            i += 1;
        }
        proof {
            assert(self@.sites.take(n as int) =~= self@.sites);
        }
        Ok(out)
    }

    /// The sites owned by one user, in storage order.
    pub fn sites_by_user_id(&self, user_id: i64) -> (r: Result<Vec<Site>, AppError>)
        requires
            self.wf(),
        ensures
            r is Ok,
            r->Ok_0@ == sites_of(self@.sites, user_id),
    {
        let n = self.sites.len();
        let mut out: Vec<Site> = Vec::new();
        let mut i: usize = 0;
        while i < n
            invariant
                i <= n,
                n == self@.sites.len(),
                out@ == sites_of(self@.sites.take(i as int), user_id),
            decreases n - i,
        {
            proof {
                assert(self@.sites.take(i + 1).drop_last() =~= self@.sites.take(i as int));
                assert(self@.sites.take(i + 1).last() == self@.sites[i as int]);
            }
            if self.sites[i].user_id == user_id {
                out.push(self.sites[i].clone());
            }
            i += 1;
        }
        proof {
            assert(self@.sites.take(n as int) =~= self@.sites);
        }
        Ok(out)
    }
    /// Whether the ledger records `version` as applied.
    fn ledger_has(&self, version: i64) -> (r: bool)
        ensures
            r == ledger_contains(self@.ledger, version),
    {
        let n = self.ledger.len();
        let mut i: usize = 0;
        while i < n
            invariant
                i <= n,
                n == self@.ledger.len(),
                forall|k: int| 0 <= k < i ==> #[trigger] self@.ledger[k] != version,
            decreases n - i,
        {
            if self.ledger[i] == version {
                return true;
            }
            i += 1;
        }
        false
    }

    /// The ledger index of the row recording `version`, if any.
    fn find_ledger_index(&self, version: i64) -> (r: Option<usize>)
        ensures
            match r {
                Some(k) => k < self@.ledger.len() && self@.ledger[k as int] == version,
                None => !ledger_contains(self@.ledger, version),
            },
    {
        let n = self.ledger.len();
        let mut i: usize = 0;
        while i < n
            invariant
                i <= n,
                n == self@.ledger.len(),
                forall|k: int| 0 <= k < i ==> #[trigger] self@.ledger[k] != version,
            decreases n - i,
        {
            if self.ledger[i] == version {
                return Some(i);
            }
            i += 1;
        }
        None
    }

    /// The plan index of the last migration carrying a reverse script,
    /// if any.
    fn find_last_reversible(&self) -> (r: Option<usize>)
        ensures
            match r {
                Some(k) => k as int == last_reversible(self@.migrations),
                None => !has_reversible(self@.migrations),
            },
    {
        let mut i: usize = self.migrations.len();
        while i > 0
            invariant
                i <= self@.migrations.len(),
                forall|j: int|
                    i <= j < self@.migrations.len() ==> !(#[trigger] self@.migrations[j]).reversible,
            decreases i,
        {
            i -= 1;
            if self.migrations[i].reversible {
                proof {
                    let plan = self@.migrations;
                    lemma_last_reversible(plan);
                    assert(has_reversible(plan));
                    let lr = last_reversible(plan);
                    if lr < i as int {
                        assert(plan[i as int].reversible);
                    }
                    if lr > i as int {
                        assert(!plan[lr].reversible);
                    }
                }
                return Some(i);
            }
        }
        proof {
            assert forall|j: int|
                0 <= j < self@.migrations.len() implies !(
            #[trigger] self@.migrations[j]).reversible by {}
        }
        None
    }

    /// Applies every migration of the plan whose version the ledger does
    /// not yet record, in plan order, appending one ledger row per
    /// migration applied.
    pub fn migrate(&mut self) -> (r: Result<(), AppError>)
        requires
            old(self).wf(),
        ensures
            final(self).wf(),
            r is Ok,
            final(self)@.users == old(self)@.users,
            final(self)@.logins == old(self)@.logins,
            final(self)@.sites == old(self)@.sites,
            final(self)@.responses == old(self)@.responses,
            final(self)@.migrations == old(self)@.migrations,
            final(self)@.clock == old(self)@.clock,
            final(self)@.ledger == spec_migrate(old(self)@.ledger, old(self)@.migrations),
    {
        let n = self.migrations.len();
        let mut i: usize = 0;
        while i < n
            invariant
                i <= n,
                n == self@.migrations.len(),
                self.wf(),
                self@.users == old(self)@.users,
                self@.logins == old(self)@.logins,
                self@.sites == old(self)@.sites,
                self@.responses == old(self)@.responses,
                self@.migrations == old(self)@.migrations,
                self@.clock == old(self)@.clock,
                self@.ledger == spec_migrate(
                    old(self)@.ledger,
                    old(self)@.migrations.take(i as int),
                ),
            decreases n - i,
        {
            proof {
                assert(old(self)@.migrations.take(i + 1).drop_last() =~= old(
                    self,
                )@.migrations.take(i as int));
                assert(old(self)@.migrations.take(i + 1).last() == old(self)@.migrations[i as int]);
            }
            let version = self.migrations[i].version;
            if !self.ledger_has(version) {
                let ghost pre_ledger = self@.ledger;
                self.ledger.push(version);
                proof {
                    assert forall|p: int, q: int| 0 <= p < q < self@.ledger.len() implies
                        #[trigger] self@.ledger[p] != #[trigger] self@.ledger[q] by {
                        if q < pre_ledger.len() {
                            assert(self@.ledger[p] == pre_ledger[p]);
                            assert(self@.ledger[q] == pre_ledger[q]);
                        } else {
                            assert(self@.ledger[q] == version);
                            assert(self@.ledger[p] == pre_ledger[p]);
                        }
                    }
                }
            }
            i += 1;
        }
        proof {
            assert(old(self)@.migrations.take(n as int) =~= old(self)@.migrations);
        }
        Ok(())
    }

    /// Undoes the last migration of the plan that carries a reverse
    /// script: runs its reverse step and deletes the ledger row recording
    /// its version, leaving every other ledger row untouched. Fails, and
    /// changes nothing, when no plan entry is reversible.
    pub fn rollback(&mut self) -> (r: Result<(), AppError>)
        requires
            old(self).wf(),
        ensures
            final(self).wf(),
            final(self)@.users == old(self)@.users,
            final(self)@.logins == old(self)@.logins,
            final(self)@.sites == old(self)@.sites,
            final(self)@.responses == old(self)@.responses,
            final(self)@.migrations == old(self)@.migrations,
            final(self)@.clock == old(self)@.clock,
            (r is Ok <==> has_reversible(old(self)@.migrations)),
            r is Err ==> r->Err_0 == AppError::Rollback && final(self)@ == old(self)@,
            r is Ok ==> ({
                let lr = last_reversible(old(self)@.migrations);
                let version = old(self)@.migrations[lr].version;
                &&& final(self)@.ledger == remove_version(old(self)@.ledger, version)
                &&& (ledger_contains(old(self)@.ledger, version) ==> final(self)@.ledger.len()
                    == old(self)@.ledger.len() - 1)
                &&& (!ledger_contains(old(self)@.ledger, version) ==> final(self)@.ledger == old(
                    self,
                )@.ledger)
            }),
    {
        let k = match self.find_last_reversible() {
            None => {
                return Err(AppError::Rollback);
            },
            Some(k) => k,
        };
        proof {
            lemma_last_reversible(self@.migrations);
        }
        let version = self.migrations[k].version;
        match self.find_ledger_index(version) {
            Some(j) => {
                let ghost pre_ledger = self@.ledger;
                self.ledger.remove(j);
                proof {
                    lemma_remove_version_at(pre_ledger, version, j as int);
                    assert forall|p: int, q: int| 0 <= p < q < self@.ledger.len() implies
                        #[trigger] self@.ledger[p] != #[trigger] self@.ledger[q] by {
                        let p0 = if p < j as int {
                            p
                        } else {
                            p + 1
                        };
                        let q0 = if q < j as int {
                            q
                        } else {
                            q + 1
                        };
                        assert(self@.ledger[p] == pre_ledger[p0]);
                        assert(self@.ledger[q] == pre_ledger[q0]);
                    }
                }
                Ok(())
            },
            None => {
                proof {
                    lemma_remove_version_absent(self@.ledger, version);
                }
                Ok(())
            },
        }
    }

    /// All stored probe response rows, in storage order.
    pub fn responses(&self) -> (r: Vec<Response>)
        ensures
            r@ == self@.responses,
    {
        let n = self.responses.len();
        let mut out: Vec<Response> = Vec::new();
        let mut i: usize = 0;
        while i < n
            invariant
                i <= n,
                n == self@.responses.len(),
                out@ == self@.responses.take(i as int),
            decreases n - i,
        {
            out.push(self.responses[i]);
            proof {
                assert(out@ =~= self@.responses.take(i + 1));
            }
            i += 1;
        }
        proof {
            assert(self@.responses.take(n as int) =~= self@.responses);
        }
        out
    }

    /// The migration versions the ledger records as applied, in order.
    pub fn applied_versions(&self) -> (r: Vec<i64>)
        ensures
            r@ == self@.ledger,
    {
        let n = self.ledger.len();
        let mut out: Vec<i64> = Vec::new();
        let mut i: usize = 0;
        while i < n
            invariant
                i <= n,
                n == self@.ledger.len(),
                out@ == self@.ledger.take(i as int),
            decreases n - i,
        {
            out.push(self.ledger[i]);
            proof {
                assert(out@ =~= self@.ledger.take(i + 1));
            }
            i += 1;
        }
        proof {
            assert(self@.ledger.take(n as int) =~= self@.ledger);
        }
        out
    }

    /// The index of the stored row carrying the pair, if any.
    fn find_pair(&self, status_code: i64, site_id: i64) -> (r: Option<usize>)
        ensures
            match r {
                Some(k) => k < self@.responses.len() && resp_matches(
                    self@.responses[k as int],
                    status_code,
                    site_id,
                ),
                None => !has_pair(self@.responses, status_code, site_id),
            },
    {
        let n = self.responses.len();
        let mut i: usize = 0;
        while i < n
            invariant
                i <= n,
                n == self@.responses.len(),
                forall|k: int|
                    0 <= k < i ==> !resp_matches(
                        #[trigger] self@.responses[k],
                        status_code,
                        site_id,
                    ),
            decreases n - i,
        {
            if self.responses[i].status_code == status_code && self.responses[i].site_id
                == site_id {
                return Some(i);
            }
            i += 1;
        }
        None
    }

    /// Records one probe observation. The first observation of a
    /// (status_code, site_id) pair inserts a row; every later observation
    /// of the same pair only advances that row's updated_at stamp, so a
    /// site keeps exactly one row per status code it has ever shown.
    pub fn upsert_response(&mut self, response: Response) -> (r: Result<Response, AppError>)
        requires
            old(self).wf(),
        ensures
            final(self).wf(),
            final(self)@.users == old(self)@.users,
            final(self)@.logins == old(self)@.logins,
            final(self)@.sites == old(self)@.sites,
            final(self)@.migrations == old(self)@.migrations,
            final(self)@.ledger == old(self)@.ledger,
            old(self)@.clock <= final(self)@.clock,
            (r is Ok <==> has_pair(old(self)@.responses, response.status_code, response.site_id)
                || old(self)@.responses.len() < i64::MAX as int),
            r is Err ==> r->Err_0 == AppError::DatabaseInsert && final(self)@ == old(self)@,
            r is Ok ==> ({
                let row = r->Ok_0;
                &&& resp_matches(row, response.status_code, response.site_id)
                &&& row.updated_at == final(self)@.clock
                &&& (old(self)@.clock < i64::MAX ==> row.updated_at > old(self)@.clock)
                &&& has_pair(final(self)@.responses, response.status_code, response.site_id)
                &&& if has_pair(old(self)@.responses, response.status_code, response.site_id) {
                    let k = pair_index(
                        old(self)@.responses,
                        response.status_code,
                        response.site_id,
                    );
                    &&& final(self)@.responses == old(self)@.responses.update(k, row)
                    &&& row.id == old(self)@.responses[k].id
                    &&& row.created_at == old(self)@.responses[k].created_at
                    &&& row.updated_at >= old(self)@.responses[k].updated_at
                    &&& (old(self)@.clock < i64::MAX ==> row.updated_at > old(
                        self,
                    )@.responses[k].updated_at)
                } else {
                    &&& final(self)@.responses == old(self)@.responses.push(row)
                    &&& row.id == old(self)@.responses.len() + 1
                    &&& row.created_at == row.updated_at
                }
            }),
            forall|sc: i64, sid: i64|
                #[trigger] has_pair(old(self)@.responses, sc, sid) ==> has_pair(
                    final(self)@.responses,
                    sc,
                    sid,
                ),
    {
        let sc = response.status_code;
        let sid = response.site_id;
        match self.find_pair(sc, sid) {
            Some(k) => {
                let t = self.next_stamp();
                let old_row = self.responses[k];
                let row = Response {
                    id: old_row.id,
                    status_code: old_row.status_code,
                    site_id: old_row.site_id,
                    created_at: old_row.created_at,
                    updated_at: t,
                };
                self.responses[k] = row;
                proof {
                    let pre = old(self)@;
                    let post = self@;
                    assert(resp_matches(pre.responses[k as int], sc, sid));
                    assert(has_pair(pre.responses, sc, sid));
                    lemma_pair_index(pre.responses, k as int);
                    assert forall|p: int| 0 <= p < post.responses.len() implies response_row_wf(
                        #[trigger] post.responses[p],
                        p,
                        post.clock,
                    ) by {
                        if p == k as int {
                            assert(response_row_wf(pre.responses[p], p, pre.clock));
                        } else {
                            assert(post.responses[p] == pre.responses[p]);
                            assert(response_row_wf(pre.responses[p], p, pre.clock));
                        }
                    }
                    assert forall|p: int, q: int| 0 <= p < q < post.responses.len() implies !((
                    #[trigger] post.responses[p]).status_code == (
                    #[trigger] post.responses[q]).status_code && post.responses[p].site_id
                        == post.responses[q].site_id) by {
                        assert(post.responses[p].status_code == pre.responses[p].status_code
                            && post.responses[p].site_id == pre.responses[p].site_id);
                        assert(post.responses[q].status_code == pre.responses[q].status_code
                            && post.responses[q].site_id == pre.responses[q].site_id);
                    }
                    assert forall|sc2: i64, sid2: i64|
                        #[trigger] has_pair(pre.responses, sc2, sid2) implies has_pair(
                        post.responses,
                        sc2,
                        sid2,
                    ) by {
                        let w = choose|i: int|
                            0 <= i < pre.responses.len() && resp_matches(
                                #[trigger] pre.responses[i],
                                sc2,
                                sid2,
                            );
                        assert(resp_matches(post.responses[w], sc2, sid2));
                    }
                    assert(resp_matches(post.responses[k as int], sc, sid));
                    assert(has_pair(post.responses, sc, sid));
                }
                Ok(row)
            },
            None => {
                if self.responses.len() as u64 >= i64::MAX as u64 {
                    return Err(AppError::DatabaseInsert);
                }
                let t = self.next_stamp();
                let id = self.responses.len() as i64 + 1;
                let row = Response { id, status_code: sc, site_id: sid, created_at: t, updated_at: t };
                self.responses.push(row);
                proof {
                    let pre = old(self)@;
                    let post = self@;
                    assert forall|p: int| 0 <= p < post.responses.len() implies response_row_wf(
                        #[trigger] post.responses[p],
                        p,
                        post.clock,
                    ) by {
                        if p < pre.responses.len() {
                            assert(post.responses[p] == pre.responses[p]);
                            assert(response_row_wf(pre.responses[p], p, pre.clock));
                        }
                    }
                    assert forall|p: int, q: int| 0 <= p < q < post.responses.len() implies !((
                    #[trigger] post.responses[p]).status_code == (
                    #[trigger] post.responses[q]).status_code && post.responses[p].site_id
                        == post.responses[q].site_id) by {
                        if q < pre.responses.len() {
                            assert(post.responses[p] == pre.responses[p]);
                            assert(post.responses[q] == pre.responses[q]);
                        } else {
                            assert(post.responses[q] == row);
                            assert(post.responses[p] == pre.responses[p]);
                            if resp_matches(pre.responses[p], sc, sid) {
                                assert(has_pair(pre.responses, sc, sid));
                            }
                        }
                    }
                    assert forall|sc2: i64, sid2: i64|
                        #[trigger] has_pair(pre.responses, sc2, sid2) implies has_pair(
                        post.responses,
                        sc2,
                        sid2,
                    ) by {
                        let w = choose|i: int|
                            0 <= i < pre.responses.len() && resp_matches(
                                #[trigger] pre.responses[i],
                                sc2,
                                sid2,
                            );
                        assert(resp_matches(post.responses[w], sc2, sid2));
                    }
                    assert(resp_matches(post.responses[pre.responses.len() as int], sc, sid));
                    assert(has_pair(post.responses, sc, sid));
                }
                Ok(row)
            },
        }
    }

    /// The most recently stamped response row of one site; fails when no
    /// probe result has been stored for it yet.
    pub fn latest_response_by_site(&self, site_id: i64) -> (r: Result<Response, AppError>)
        requires
            self.wf(),
        ensures
            (r is Ok <==> has_site_row(self@.responses, site_id)),
            r is Ok ==> ({
                let row = r->Ok_0;
                &&& row.site_id == site_id
                &&& exists|i: int|
                    0 <= i < self@.responses.len() && (#[trigger] self@.responses[i]) == row
                &&& forall|i: int|
                    0 <= i < self@.responses.len() && (#[trigger] self@.responses[i]).site_id
                        == site_id ==> self@.responses[i].updated_at <= row.updated_at
            }),
            r is Err ==> r->Err_0 == AppError::DatabaseSelect,
    {
        let n = self.responses.len();
        let mut best: Option<Response> = None;
        let mut i: usize = 0;
        while i < n
            invariant
                i <= n,
                n == self@.responses.len(),
                best is None ==> forall|j: int|
                    0 <= j < i ==> (#[trigger] self@.responses[j]).site_id != site_id,
                best is Some ==> ({
                    let b = best->0;
                    &&& b.site_id == site_id
                    &&& exists|j: int|
                        0 <= j < i && (#[trigger] self@.responses[j]) == b
                    &&& forall|j: int|
                        0 <= j < i && (#[trigger] self@.responses[j]).site_id == site_id
                            ==> self@.responses[j].updated_at <= b.updated_at
                }),
            decreases n - i,
        {
            let cur = self.responses[i];
            if cur.site_id == site_id {
                best = match best {
                    Some(b) => if cur.updated_at > b.updated_at {
                        Some(cur)
                    } else {
                        Some(b)
                    },
                    None => Some(cur),
                };
            }
            i += 1;
        }
        match best {
            Some(b) => Ok(b),
            None => Err(AppError::DatabaseSelect),
        }
    }
}

/// Appending one site extends its owner's slice by that site and leaves
/// every other owner's slice unchanged.
pub proof fn lemma_sites_of_push(s: Seq<Site>, x: Site, user_id: i64)
    ensures
        x.user_id == user_id ==> sites_of(s.push(x), user_id) == sites_of(s, user_id).push(x),
        x.user_id != user_id ==> sites_of(s.push(x), user_id) == sites_of(s, user_id),
{
    assert(s.push(x).drop_last() =~= s);
    assert(s.push(x).last() == x);
}

} // verus!
