use vstd::prelude::*;

use crate::db::{
    code_is_fresh, count_logins, lemma_count_logins_absent, user_row_wf, Database,
};
use crate::{AppError, Login, Site, User};

verus! {

impl Database {
    /// Signs a visitor up in one stroke: creates the account with a
    /// fresh login code, records the signup as the account's first
    /// login, and registers the submitted URL as its first monitored
    /// site. An empty URL is rejected before anything is written; a
    /// failed signup never leaves a site row behind.
    pub fn signup(&mut self, url: String) -> (r: Result<(User, Login, Site), AppError>)
        requires
            old(self).wf(),
        ensures
            final(self).wf(),
            final(self)@.responses == old(self)@.responses,
            final(self)@.migrations == old(self)@.migrations,
            final(self)@.ledger == old(self)@.ledger,
            old(self)@.clock <= final(self)@.clock,
            url@.len() == 0 ==> r is Err && r->Err_0 == AppError::UrlEmpty && final(self)@ == old(
                self,
            )@,
            (old(self)@.users.len() == 0 && url@.len() > 0 && old(self)@.logins.len()
                < i64::MAX as int && old(self)@.sites.len() < i64::MAX as int) ==> r is Ok,
            r is Err && url@.len() > 0 ==> r->Err_0 == AppError::DatabaseInsert,
            r is Err ==> final(self)@.sites == old(self)@.sites,
            r is Err ==> final(self)@.users == old(self)@.users || (exists|u: User|
                final(self)@.users == old(self)@.users.push(u)),
            r is Err ==> final(self)@.logins == old(self)@.logins || (exists|l: Login|
                final(self)@.logins == old(self)@.logins.push(l)),
            r is Ok ==> ({
                let u = r->Ok_0.0;
                let l = r->Ok_0.1;
                let s = r->Ok_0.2;
                &&& url@.len() > 0
                &&& final(self)@.users == old(self)@.users.push(u)
                &&& u.id == old(self)@.users.len() + 1
                &&& code_is_fresh(old(self)@.users, u.login_code@)
                &&& u.login_code@.len() == 21
                &&& final(self)@.logins == old(self)@.logins.push(l)
                &&& l.user_id == u.id
                &&& count_logins(final(self)@.logins, u.id) == 1
                &&& final(self)@.sites == old(self)@.sites.push(s)
                &&& s.user_id == u.id
                &&& s.url@ == url@
            }),
    {
        if url.as_str().is_empty() {
            return Err(AppError::UrlEmpty);
        }
        let user = match self.insert_user() {
            Ok(u) => u,
            Err(e) => {
                return Err(e);
            },
        };
        proof {
            assert forall|i: int| 0 <= i < old(self)@.logins.len() implies (
            #[trigger] old(self)@.logins[i]).user_id != user.id by {
                assert(1 <= old(self)@.logins[i].user_id <= old(self)@.users.len());
            }
            lemma_count_logins_absent(old(self)@.logins, user.id);
        }
        let login_row = Login { id: 0, user_id: user.id, created_at: 0 };
        let login = match self.insert_login(login_row) {
            Ok(l) => l,
            Err(e) => {
                proof {
                    assert(exists|u: User| self@.users == old(self)@.users.push(u)) by {
                        assert(self@.users == old(self)@.users.push(user));
                    }
                }
                return Err(e);
            },
        };
        let site_arg = Site {
            id: 0,
            user_id: user.id,
            url,
            name: None,
            created_at: 0,
            updated_at: 0,
        };
        let site = match self.insert_site(site_arg) {
            Ok(s) => s,
            Err(e) => {
                proof {
                    assert(exists|u: User| self@.users == old(self)@.users.push(u)) by {
                        assert(self@.users == old(self)@.users.push(user));
                    }
                    assert(exists|l: Login| self@.logins == old(self)@.logins.push(l)) by {
                        assert(self@.logins == old(self)@.logins.push(login));
                    }
                }
                return Err(e);
            },
        };
        Ok((user, login, site))
    }

    /// Authenticates by login code: looks the account up and, when it
    /// exists, records one more login row for it. A code no account
    /// carries is answered with the login error and no write.
    pub fn login(&mut self, login_code: String) -> (r: Result<(User, Login), AppError>)
        requires
            old(self).wf(),
        ensures
            final(self).wf(),
            final(self)@.users == old(self)@.users,
            final(self)@.sites == old(self)@.sites,
            final(self)@.responses == old(self)@.responses,
            final(self)@.migrations == old(self)@.migrations,
            final(self)@.ledger == old(self)@.ledger,
            old(self)@.clock <= final(self)@.clock,
            (r is Ok <==> !code_is_fresh(old(self)@.users, login_code@)
                && old(self)@.logins.len() < i64::MAX as int),
            r is Ok ==> ({
                let u = r->Ok_0.0;
                let l = r->Ok_0.1;
                &&& exists|i: int|
                    0 <= i < old(self)@.users.len() && (#[trigger] old(self)@.users[i]) == u
                &&& u.login_code@ == login_code@
                &&& l.user_id == u.id
                &&& final(self)@.logins == old(self)@.logins.push(l)
                &&& count_logins(final(self)@.logins, u.id) == count_logins(
                    old(self)@.logins,
                    u.id,
                ) + 1
            }),
            r is Err ==> final(self)@ == old(self)@,
            r is Err ==> (r->Err_0 == AppError::Login <==> code_is_fresh(
                old(self)@.users,
                login_code@,
            )),
            r is Err && !code_is_fresh(old(self)@.users, login_code@) ==> r->Err_0
                == AppError::DatabaseInsert,
    {
        let user = match self.user_by_login_code(login_code) {
            Ok(u) => u,
            Err(_) => {
                return Err(AppError::Login);
            },
        };
        proof {
            let i = choose|i: int|
                0 <= i < self@.users.len() && (#[trigger] self@.users[i]) == user;
            assert(user_row_wf(self@.users[i], i, self@.clock));
        }
        let login_row = Login { id: 0, user_id: user.id, created_at: 0 };
        match self.insert_login(login_row) {
            Ok(l) => Ok((user, l)),
            Err(e) => Err(e),
        }
    }
}

} // verus!
