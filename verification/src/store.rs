//! An in-memory model of the persistence collaborator, with exactly the
//! semantics the provisioning logic relies on: inserting an account whose
//! email is already present fails with a uniqueness violation instead of
//! writing anything, and that violation is the only serialisation point
//! between concurrent first logins. Account, workspace and refresh-token
//! rows live here; a deployment backs the same operations with a database
//! whose unique constraints enforce the same contracts.
use vstd::prelude::*;

use crate::codec::wf_subject;
use crate::project::Project;
use crate::user::User;

verus! {

/// A persisted refresh-token row: never the raw token, only its hash.
pub struct RefreshTokenRecord {
    pub token_id: String,
    pub user_id: String,
    pub token_hash: String,
    pub expires_at: u64,
}

/// What an insert can report.
#[derive(Clone, Copy, Debug, PartialEq, Eq, Structural)]
pub enum DbError {
    /// A unique constraint refused the row: the signal that it exists.
    UniqueViolation,
    /// Any other storage failure; fatal for the request.
    Failure,
}

pub open spec fn has_email(users: Seq<User>, email: Seq<char>) -> bool {
    exists|i: int| 0 <= i < users.len() && #[trigger] users[i].email@ == email
}

/// The first account carrying an email, scanning from the front.
pub open spec fn first_with_email(users: Seq<User>, email: Seq<char>) -> Option<User>
    decreases users.len(),
{
    if users.len() == 0 {
        None
    } else if users[0].email@ == email {
        Some(users[0])
    } else {
        first_with_email(users.skip(1), email)
    }
}

/// How many accounts carry an email.
pub open spec fn count_with_email(users: Seq<User>, email: Seq<char>) -> nat
    decreases users.len(),
{
    if users.len() == 0 {
        0
    } else {
        count_with_email(users.skip(1), email) + if users[0].email@ == email {
            1nat
        } else {
            0nat
        }
    }
}

pub open spec fn unique_emails(users: Seq<User>) -> bool {
    forall|i: int, j: int|
        0 <= i < j < users.len() ==> #[trigger] users[i].email@ != #[trigger] users[j].email@
}

pub open spec fn has_project_id(projects: Seq<Project>, id: Seq<char>) -> bool {
    exists|i: int| 0 <= i < projects.len() && #[trigger] projects[i].project_id@ == id
}

pub open spec fn has_token_id(records: Seq<RefreshTokenRecord>, id: Seq<char>) -> bool {
    exists|i: int| 0 <= i < records.len() && #[trigger] records[i].token_id@ == id
}

/// The model store: accounts, workspaces, refresh-token rows.
pub struct Store {
    pub users: Vec<User>,
    pub projects: Vec<Project>,
    pub refresh_tokens: Vec<RefreshTokenRecord>,
}

impl Store {
    /// The uniqueness the storage layer enforces.
    pub open spec fn wf(&self) -> bool {
        &&& unique_emails(self.users@)
        &&& forall|i: int|
            0 <= i < self.users@.len() ==> wf_subject(#[trigger] self.users@[i].user_id@)
        &&& forall|i: int, j: int|
            0 <= i < j < self.projects@.len() ==> #[trigger] self.projects@[i].project_id@
                != #[trigger] self.projects@[j].project_id@
        &&& forall|i: int, j: int|
            0 <= i < j < self.refresh_tokens@.len()
                ==> #[trigger] self.refresh_tokens@[i].token_id@
                != #[trigger] self.refresh_tokens@[j].token_id@
    }

    pub fn new() -> (r: Store)
        ensures
            r.users@.len() == 0,
            r.projects@.len() == 0,
            r.refresh_tokens@.len() == 0,
            r.wf(),
    {
        Store { users: Vec::new(), projects: Vec::new(), refresh_tokens: Vec::new() }
    }

    /// Insert an account row. Refused with a uniqueness violation, and
    /// nothing written, exactly when the email is already present.
    pub fn create_user(&mut self, user: User) -> (r: Result<(), DbError>)
        requires
            old(self).wf(),
            wf_subject(user.user_id@),
        ensures
            final(self).wf(),
            final(self).projects@ == old(self).projects@,
            final(self).refresh_tokens@ == old(self).refresh_tokens@,
            match r {
                Ok(()) => !has_email(old(self).users@, user.email@) && final(self).users@ == old(
                    self,
                ).users@.push(user),
                Err(e) => e == DbError::UniqueViolation && has_email(old(self).users@, user.email@)
                    && final(self).users@ == old(self).users@,
            },
    {
        let n = self.users.len();
        let mut i: usize = 0;
        while i < n
            invariant
                0 <= i <= n,
                *self == *old(self),
                old(self).wf(),
                n == self.users@.len(),
                forall|k: int| 0 <= k < i ==> #[trigger] self.users@[k].email@ != user.email@,
            decreases n - i,
        {
            if self.users[i].email == user.email {
                return Err(DbError::UniqueViolation);
            }
            i = i + 1;
        }
        self.users.push(user);
        Ok(())
    }

    /// The first account with the given email, if any.
    pub fn get_user(&self, user_email: &String) -> (r: Option<User>)
        ensures
            r == first_with_email(self.users@, user_email@),
            (r is Some) == has_email(self.users@, user_email@),
    {
        let n = self.users.len();
        let mut i: usize = 0;
        while i < n
            invariant
                0 <= i <= n,
                n == self.users@.len(),
                forall|k: int| 0 <= k < i ==> #[trigger] self.users@[k].email@ != user_email@,
            decreases n - i,
        {
            if self.users[i].email == *user_email {
                let found = self.users[i].duplicate();
                proof {
                    lemma_first_with_email_skip(self.users@, user_email@, i as int);
                    assert(self.users@.skip(i as int)[0] == self.users@[i as int]);
                }
                return Some(found);
            }
            i = i + 1;
        }
        proof {
            lemma_first_with_email_skip(self.users@, user_email@, i as int);
            assert(self.users@.skip(i as int).len() == 0);
            if has_email(self.users@, user_email@) {
                let w = choose|k: int|
                    0 <= k < self.users@.len() && #[trigger] self.users@[k].email@ == user_email@;
                assert(false);
            }
        }
        None
    }

    /// Insert a workspace row; refused exactly on a duplicate identifier.
    pub fn add_project(&mut self, project: Project) -> (r: Result<(), DbError>)
        requires
            old(self).wf(),
        ensures
            final(self).wf(),
            final(self).users@ == old(self).users@,
            final(self).refresh_tokens@ == old(self).refresh_tokens@,
            match r {
                Ok(()) => !has_project_id(old(self).projects@, project.project_id@)
                    && final(self).projects@ == old(self).projects@.push(project),
                Err(e) => e == DbError::UniqueViolation && has_project_id(
                    old(self).projects@,
                    project.project_id@,
                ) && final(self).projects@ == old(self).projects@,
            },
    {
        let n = self.projects.len();
        let mut i: usize = 0;
        while i < n
            invariant
                0 <= i <= n,
                *self == *old(self),
                old(self).wf(),
                n == self.projects@.len(),
                forall|k: int|
                    0 <= k < i ==> #[trigger] self.projects@[k].project_id@
                        != project.project_id@,
            decreases n - i,
        {
            if self.projects[i].project_id == project.project_id {
                return Err(DbError::UniqueViolation);
            }
            i = i + 1;
        }
        self.projects.push(project);
        Ok(())
    }

    /// Insert a refresh-token row; refused exactly on a duplicate
    /// identifier.
    pub fn store_refresh_token(
        &mut self,
        u_id: String,
        token_id: String,
        token_hash: String,
        expires_at: u64,
    ) -> (r: Result<(), DbError>)
        requires
            old(self).wf(),
        ensures
            final(self).wf(),
            final(self).users@ == old(self).users@,
            final(self).projects@ == old(self).projects@,
            match r {
                Ok(()) => {
                    &&& !has_token_id(old(self).refresh_tokens@, token_id@)
                    &&& final(self).refresh_tokens@.len() == old(self).refresh_tokens@.len() + 1
                    &&& final(self).refresh_tokens@ == old(self).refresh_tokens@.push(
                        final(self).refresh_tokens@.last(),
                    )
                    &&& final(self).refresh_tokens@.last().token_id == token_id
                    &&& final(self).refresh_tokens@.last().user_id == u_id
                    &&& final(self).refresh_tokens@.last().token_hash == token_hash
                    &&& final(self).refresh_tokens@.last().expires_at == expires_at
                },
                Err(e) => e == DbError::UniqueViolation && has_token_id(
                    old(self).refresh_tokens@,
                    token_id@,
                ) && final(self).refresh_tokens@ == old(self).refresh_tokens@,
            },
    {
        let n = self.refresh_tokens.len();
        let mut i: usize = 0;
        while i < n
            invariant
                0 <= i <= n,
                *self == *old(self),
                old(self).wf(),
                n == self.refresh_tokens@.len(),
                forall|k: int|
                    0 <= k < i ==> #[trigger] self.refresh_tokens@[k].token_id@ != token_id@,
            decreases n - i,
        {
            if self.refresh_tokens[i].token_id == token_id {
                return Err(DbError::UniqueViolation);
            }
            i = i + 1;
        }
        let record = RefreshTokenRecord { token_id, user_id: u_id, token_hash, expires_at };
        self.refresh_tokens.push(record);
        Ok(())
    }
}

/// Scanning past non-matching accounts does not change the first match.
pub proof fn lemma_first_with_email_skip(users: Seq<User>, email: Seq<char>, i: int)
    requires
        0 <= i <= users.len(),
        forall|k: int| 0 <= k < i ==> #[trigger] users[k].email@ != email,
    ensures
        first_with_email(users, email) == first_with_email(users.skip(i), email),
    decreases i,
{
    if i > 0 {
        assert(users[0].email@ != email);
        assert(users.skip(1).len() == users.len() - 1);
        assert(forall|k: int|
            0 <= k < i - 1 ==> #[trigger] users.skip(1)[k].email@ != email) by {
            assert(forall|k: int| 0 <= k < i - 1 ==> users.skip(1)[k] == users[k + 1]);
        }
        lemma_first_with_email_skip(users.skip(1), email, i - 1);
        assert(users.skip(1).skip(i - 1) =~= users.skip(i));
    } else {
        assert(users.skip(0) =~= users);
    }
}

/// A found account is the first one: it carries the email, everything
/// before it does not.
pub proof fn lemma_first_with_email_found(users: Seq<User>, email: Seq<char>)
    requires
        has_email(users, email),
    ensures
        first_with_email(users, email) matches Some(u) && u.email@ == email && exists|i: int|
            0 <= i < users.len() && users[i] == u,
    decreases users.len(),
{
    if users[0].email@ == email {
        assert(users[0] == first_with_email(users, email).unwrap());
    } else {
        let w = choose|i: int| 0 <= i < users.len() && #[trigger] users[i].email@ == email;
        assert(users.skip(1)[w - 1] == users[w]);
        lemma_first_with_email_found(users.skip(1), email);
        let u = first_with_email(users.skip(1), email).unwrap();
        let j = choose|i: int| 0 <= i < users.skip(1).len() && users.skip(1)[i] == u;
        assert(users[j + 1] == users.skip(1)[j]);
    }
}

/// Adding an account with a fresh email leaves exactly one row with it,
/// and that row is what a later lookup finds.
pub proof fn lemma_count_after_insert(users: Seq<User>, u: User)
    requires
        !has_email(users, u.email@),
    ensures
        count_with_email(users.push(u), u.email@) == 1,
        first_with_email(users.push(u), u.email@) == Some(u),
        has_email(users.push(u), u.email@),
    decreases users.len(),
{
    let whole = users.push(u);
    if users.len() == 0 {
        assert(whole[0] == u);
        assert(whole.skip(1) =~= Seq::<User>::empty());
        assert(count_with_email(Seq::<User>::empty(), u.email@) == 0);
        assert(first_with_email(whole, u.email@) == Some(u));
    } else {
        assert(whole[0] == users[0]);
        assert(users[0].email@ != u.email@) by {
            assert(!(exists|i: int|
                0 <= i < users.len() && #[trigger] users[i].email@ == u.email@));
        }
        assert(!has_email(users.skip(1), u.email@)) by {
            if has_email(users.skip(1), u.email@) {
                let w = choose|i: int|
                    0 <= i < users.skip(1).len() && #[trigger] users.skip(1)[i].email@
                        == u.email@;
                assert(users[w + 1] == users.skip(1)[w]);
            }
        }
        lemma_count_after_insert(users.skip(1), u);
        assert(whole.skip(1) =~= users.skip(1).push(u));
        assert(whole[whole.len() - 1] == u);
    }
}

} // verus!
