//! Users, roles and session tokens for administrative access.
use vstd::prelude::*;
use crate::clock::{unix_time_nanos, unix_time_secs};
use crate::text::{decimal, decimal_text, push_text};
use crate::seqs::lemma_push_contains;

verus! {

/// How long a session token stays valid, in seconds.
pub const TOKEN_VALIDITY_SEC: u64 = 3600;

#[derive(Debug, Clone, Copy, Hash, PartialEq, Eq, Structural)]
pub enum Permission {
    ReadFiles,
    WriteFiles,
    ExecuteNetwork,
    ManageUsers,
    AccessVault,
    AuditLogs,
}

/// A named set of permissions.
pub struct Role {
    name: String,
    permissions: Vec<Permission>,
}

pub struct User {
    id: String,
    username: String,
    password_hash: String,
    roles: Vec<String>,
    mfa_enabled: bool,
    locked: bool,
}

pub struct SessionToken {
    token: String,
    user_id: String,
    expires_at: u64,
    scope: Vec<Permission>,
}

pub struct IdentityProvider {
    users: Vec<User>,
    roles: Vec<(String, Role)>,
    sessions: Vec<SessionToken>,
    token_validity_sec: u64,
}

pub ghost struct UserView {
    pub id: Seq<char>,
    pub username: Seq<char>,
    pub password_hash: Seq<char>,
    pub roles: Seq<Seq<char>>,
    pub locked: bool,
}

pub ghost struct SessionView {
    pub token: Seq<char>,
    pub user_id: Seq<char>,
    pub expires_at: u64,
    pub scope: Seq<Permission>,
}

impl User {
    pub closed spec fn view(&self) -> UserView {
        UserView {
            id: self.id@,
            username: self.username@,
            password_hash: self.password_hash@,
            roles: self.roles@.map_values(|r: String| r@),
            locked: self.locked,
        }
    }
}

impl SessionToken {
    pub closed spec fn view(&self) -> SessionView {
        SessionView { token: self.token@, user_id: self.user_id@, expires_at: self.expires_at, scope: self.scope@ }
    }
}

/// The stored form of a password: its length in bytes behind a fixed tag.
pub open spec fn password_digest(len: nat) -> Seq<char> {
    "hash_sha256_"@ + decimal_text(len)
}

/// The id given to a user created with `nonce`.
pub open spec fn user_id_for(nonce: u64) -> Seq<char> {
    "USR-"@ + decimal_text(nonce as nat)
}

/// The token handed to user `id` on a login with `nonce`.
pub open spec fn token_for(id: Seq<char>, nonce: u64) -> Seq<char> {
    "tkn_"@ + id + "_"@ + decimal_text(nonce as nat)
}

/// The permissions of the built-in administrator role.
pub open spec fn admin_permissions() -> Set<Permission> {
    set![Permission::ReadFiles, Permission::WriteFiles, Permission::ExecuteNetwork, Permission::ManageUsers, Permission::AccessVault]
}

impl IdentityProvider {
    pub closed spec fn users_view(&self) -> Seq<UserView> {
        self.users@.map_values(|u: User| u.view())
    }

    pub closed spec fn sessions_view(&self) -> Seq<SessionView> {
        self.sessions@.map_values(|s: SessionToken| s.view())
    }

    /// Each role's key, display name and permissions.
    pub closed spec fn role_table(&self) -> Seq<(Seq<char>, Seq<char>, Set<Permission>)> {
        self.roles@.map_values(|r: (String, Role)| (r.0@, r.1.name@, r.1.permissions@.to_set()))
    }

    /// How long a new session stays valid, in seconds.
    pub closed spec fn token_validity(&self) -> u64 {
        self.token_validity_sec
    }

    /// The permissions of the role called `name`, if there is one.
    pub closed spec fn role_permissions(&self, name: Seq<char>) -> Option<Set<Permission>> {
        if exists|i: int| 0 <= i < self.roles@.len() && self.roles@[i].0@ == name {
            let i = choose|i: int| 0 <= i < self.roles@.len() && self.roles@[i].0@ == name;
            Some(self.roles@[i].1.permissions@.to_set())
        } else {
            None
        }
    }

    /// Role names and session tokens are unique; the validity period is fixed.
    pub closed spec fn wf(&self) -> bool {
        &&& forall|i: int, j: int| 0 <= i < j < self.roles@.len() ==> self.roles@[i].0@ != self.roles@[j].0@
        &&& tokens_distinct(self.sessions_view())
        &&& self.token_validity_sec == TOKEN_VALIDITY_SEC
    }

    /// The union of the permissions of the roles in `names`; unknown names
    /// give none.
    pub open spec fn effective_permissions(&self, names: Seq<Seq<char>>) -> Set<Permission> {
        Set::new(|p: Permission| exists|i: int| 0 <= i < names.len() && #[trigger] self.role_grants(names[i], p))
    }

    /// The role called `name` exists and holds `p`.
    pub open spec fn role_grants(&self, name: Seq<char>, p: Permission) -> bool {
        match self.role_permissions(name) {
            Some(ps) => ps.contains(p),
            None => false,
        }
    }

    /// A provider with no users and no sessions, and the built-in `admin`
    /// role.
    pub fn new() -> (r: IdentityProvider)
        ensures
            r.wf(),
            r.users_view().len() == 0,
            r.sessions_view().len() == 0,
            r.role_permissions("admin"@) == Some(admin_permissions()),
            r.role_table() == seq![("admin"@, "Administrator"@, admin_permissions())],
            r.token_validity() == TOKEN_VALIDITY_SEC,
    {
        let mut idp = IdentityProvider { users: Vec::new(), roles: Vec::new(), sessions: Vec::new(), token_validity_sec: TOKEN_VALIDITY_SEC };
        idp.initialize_defaults();
        idp
    }

    /// Installs the built-in `admin` role in a provider that has no roles.
    fn initialize_defaults(&mut self)
        requires
            old(self).wf(),
            old(self).roles@.len() == 0,
        ensures
            final(self).wf(),
            final(self).users@ == old(self).users@,
            final(self).sessions@ == old(self).sessions@,
            final(self).role_permissions("admin"@) == Some(admin_permissions()),
            final(self).role_table() == seq![("admin"@, "Administrator"@, admin_permissions())],
    {
        let mut perms: Vec<Permission> = Vec::new();
        perms.push(Permission::ReadFiles);
        perms.push(Permission::WriteFiles);
        perms.push(Permission::ExecuteNetwork);
        perms.push(Permission::ManageUsers);
        perms.push(Permission::AccessVault);
        let role = Role { name: String::from_str("Administrator"), permissions: perms };
        self.roles.push((String::from_str("admin"), role));
        assert(self.roles@[0].0@ == "admin"@);
        assert(self.role_table() =~= seq![("admin"@, "Administrator"@, perms@.to_set())]);
        assert(perms@.to_set() =~= admin_permissions()) by {
            assert(perms@[0] == Permission::ReadFiles);
            assert(perms@[1] == Permission::WriteFiles);
            assert(perms@[2] == Permission::ExecuteNetwork);
            assert(perms@[3] == Permission::ManageUsers);
            assert(perms@[4] == Permission::AccessVault);
        }
    }
}


/// Relies on the clock: a number taken from the current time, used to make
/// ids and tokens distinct.
fn uuid_sim() -> (r: u64) {
    unix_time_nanos()
}

/// No two sessions share a token.
pub open spec fn tokens_distinct(v: Seq<SessionView>) -> bool {
    forall|i: int, j: int| 0 <= i < v.len() && 0 <= j < v.len() && i != j ==> v[i].token != v[j].token
}

/// Dropping one session keeps the tokens distinct.
proof fn lemma_distinct_remove(v: Seq<SessionView>, k: int)
    requires
        tokens_distinct(v),
        0 <= k < v.len(),
    ensures
        tokens_distinct(v.remove(k)),
{
    let w = v.remove(k);
    assert forall|i: int, j: int| 0 <= i < w.len() && 0 <= j < w.len() && i != j implies w[i].token != w[j].token by {
        let a = if i < k { i } else { i + 1 };
        let b = if j < k { j } else { j + 1 };
        assert(w[i] == v[a] && w[j] == v[b]);
    }
}

/// `now + validity`, held at `u64::MAX`.
pub open spec fn expiry(now: u64, validity: u64) -> u64 {
    if now + validity > u64::MAX { u64::MAX } else { (now + validity) as u64 }
}

impl IdentityProvider {
    /// The session holding token `t`, if there is one.
    pub closed spec fn session_with(&self, t: Seq<char>) -> Option<SessionView> {
        if exists|i: int| 0 <= i < self.sessions@.len() && self.sessions@[i].token@ == t {
            let i = choose|i: int| 0 <= i < self.sessions@.len() && self.sessions@[i].token@ == t;
            Some(self.sessions@[i].view())
        } else {
            None
        }
    }

    /// Index of the first user called `name`.
    pub open spec fn first_named(&self, name: Seq<char>, i: int) -> bool {
        &&& 0 <= i < self.users_view().len()
        &&& self.users_view()[i].username == name
        &&& forall|j: int| 0 <= j < i ==> self.users_view()[j].username != name
    }

    pub open spec fn has_user_named(&self, name: Seq<char>) -> bool {
        exists|i: int| 0 <= i < self.users_view().len() && self.users_view()[i].username == name
    }

    /// The stored form of `raw`.
    fn hash_password(&self, raw: &str) -> (r: String)
        ensures
            r@ == password_digest(raw.len() as nat),
    {
        let mut out = String::from_str("hash_sha256_");
        let n = decimal(raw.len() as u64);
        push_text(&mut out, n.as_str());
        out
    }

    /// Index of the first user called `name`.
    fn find_user(&self, name: &String) -> (r: Option<usize>)
        ensures
            r matches Some(i) ==> self.first_named(name@, i as int),
            r is None ==> !self.has_user_named(name@),
    {
        let mut i: usize = 0;
        while i < self.users.len()
            invariant
                i <= self.users@.len(),
                forall|j: int| 0 <= j < i ==> self.users_view()[j].username != name@,
            decreases self.users@.len() - i,
        {
            assert(self.users_view()[i as int] == self.users@[i as int].view());
            if self.users[i].username == *name {
                return Some(i);
            }
            i = i + 1;
        }
        None
    }

    /// Index of the role called `name`.
    fn find_role(&self, name: &String) -> (r: Option<usize>)
        requires
            self.wf(),
        ensures
            r matches Some(i) ==> i < self.roles@.len()
                && self.role_permissions(name@) == Some(self.roles@[i as int].1.permissions@.to_set()),
            r is None ==> self.role_permissions(name@) is None,
    {
        let mut i: usize = 0;
        while i < self.roles.len()
            invariant
                self.wf(),
                i <= self.roles@.len(),
                forall|j: int| 0 <= j < i ==> self.roles@[j].0@ != name@,
            decreases self.roles@.len() - i,
        {
            if self.roles[i].0 == *name {
                proof {
                    assert(self.roles@[i as int].0@ == name@);
                    let k = choose|k: int| 0 <= k < self.roles@.len() && self.roles@[k].0@ == name@;
                    if k < i {
                        assert(self.roles@[k].0@ != self.roles@[i as int].0@);
                    } else if k > i {
                        assert(self.roles@[i as int].0@ != self.roles@[k].0@);
                    }
                }
                return Some(i);
            }
            i = i + 1;
        }
        None
    }

    /// Creates a user called `username` with the given roles; the id is made
    /// from `nonce`. Refused when the name is taken.
    pub fn create_user_with_nonce(&mut self, username: &str, password: &str, roles: Vec<String>, nonce: u64) -> (r: Result<String, String>)
        requires
            old(self).wf(),
        ensures
            final(self).wf(),
            r is Err <==> old(self).has_user_named(username@),
            r matches Err(e) ==> e@ == "Username already exists"@ && final(self).users_view() == old(self).users_view(),
            r matches Ok(id) ==> id@ == user_id_for(nonce) && final(self).users_view() == old(self).users_view().push(UserView {
                id: id@,
                username: username@,
                password_hash: password_digest(password.len() as nat),
                roles: roles@.map_values(|r: String| r@),
                locked: false,
            }),
            final(self).sessions_view() == old(self).sessions_view(),
            final(self).role_table() == old(self).role_table(),
    {
        let name = String::from_str(username);
        if self.find_user(&name).is_some() {
            return Err(String::from_str("Username already exists"));
        }
        let mut user_id = String::from_str("USR-");
        let n = decimal(nonce);
        push_text(&mut user_id, n.as_str());
        let password_hash = self.hash_password(password);
        let user = User { id: user_id.clone(), username: name, password_hash, roles, mfa_enabled: false, locked: false };
        self.users.push(user);
        assert(self.users_view() =~= old(self).users_view().push(user.view()));
        Ok(user_id)
    }

    /// Creates a user called `username` with the given roles. Refused when
    /// the name is taken.
    pub fn create_user(&mut self, username: &str, password: &str, roles: Vec<String>) -> (r: Result<String, String>)
        requires
            old(self).wf(),
        ensures
            final(self).wf(),
            r is Err <==> old(self).has_user_named(username@),
            r is Ok ==> final(self).users_view().len() == old(self).users_view().len() + 1
                && final(self).users_view().last().username == username@,
    {
        let nonce = uuid_sim();
        self.create_user_with_nonce(username, password, roles, nonce)
    }
}


impl IdentityProvider {
    /// With distinct tokens, the session at `i` is the one its token finds.
    proof fn lemma_session_at(&self, i: int)
        requires
            self.wf(),
            0 <= i < self.sessions@.len(),
        ensures
            self.session_with(self.sessions@[i].token@) == Some(self.sessions@[i].view()),
    {
        let t = self.sessions@[i].token@;
        assert forall|k: int| 0 <= k < self.sessions@.len() && self.sessions@[k].token@ == t implies k == i by {
            if k != i {
                assert(self.sessions_view()[k] == self.sessions@[k].view());
                assert(self.sessions_view()[i] == self.sessions@[i].view());
                assert(self.sessions_view()[k].token == self.sessions_view()[i].token);
            }
        }
    }

    /// Index of the session holding token `t`.
    fn find_session(&self, t: &String) -> (r: Option<usize>)
        requires
            self.wf(),
        ensures
            r matches Some(i) ==> i < self.sessions@.len() && self.sessions@[i as int].token@ == t@
                && self.session_with(t@) == Some(self.sessions@[i as int].view()),
            r is None ==> self.session_with(t@) is None,
    {
        let mut i: usize = 0;
        while i < self.sessions.len()
            invariant
                self.wf(),
                i <= self.sessions@.len(),
                forall|j: int| 0 <= j < i ==> self.sessions@[j].token@ != t@,
            decreases self.sessions@.len() - i,
        {
            if self.sessions[i].token == *t {
                proof { self.lemma_session_at(i as int); }
                return Some(i);
            }
            i = i + 1;
        }
        None
    }

    /// One more role name in the union of permissions.
    proof fn lemma_union_step(&self, nv: Seq<Seq<char>>, i: int, before: Seq<Permission>, perms: Seq<Permission>, out: Seq<Permission>)
        requires
            0 <= i < nv.len(),
            self.role_permissions(nv[i]) is None ==> perms.len() == 0,
            self.role_permissions(nv[i]) is Some ==> self.role_permissions(nv[i]) == Some(perms.to_set()),
            forall|p: Permission| before.contains(p) <==> exists|j: int| 0 <= j < i && #[trigger] self.role_grants(nv[j], p),
            covers(out, before, perms),
        ensures
            forall|p: Permission| out.contains(p) <==> exists|j: int| 0 <= j < i + 1 && #[trigger] self.role_grants(nv[j], p),
    {
        assert forall|p: Permission| out.contains(p) <==> exists|j: int| 0 <= j < i + 1 && #[trigger] self.role_grants(nv[j], p) by {
            assert(self.role_grants(nv[i], p) == perms.contains(p));
            if out.contains(p) {
                if before.contains(p) {
                    let j = choose|j: int| 0 <= j < i && #[trigger] self.role_grants(nv[j], p);
                    assert(0 <= j < i + 1 && self.role_grants(nv[j], p));
                } else {
                    assert(self.role_grants(nv[i], p));
                }
            }
            if exists|j: int| 0 <= j < i + 1 && #[trigger] self.role_grants(nv[j], p) {
                let j = choose|j: int| 0 <= j < i + 1 && #[trigger] self.role_grants(nv[j], p);
                if j < i {
                    assert(before.contains(p));
                } else {
                    assert(perms.contains(p));
                }
            }
        }
    }

    /// The permissions granted by the roles called `names`, unknown names
    /// giving none.
    fn effective_scope(&self, names: &Vec<String>) -> (r: Vec<Permission>)
        requires
            self.wf(),
        ensures
            r@.to_set() == self.effective_permissions(names@.map_values(|n: String| n@)),
            r@.no_duplicates(),
    {
        let ghost nv = names@.map_values(|n: String| n@);
        let mut out: Vec<Permission> = Vec::new();
        let mut i: usize = 0;
        while i < names.len()
            invariant
                self.wf(),
                i <= names@.len(),
                nv == names@.map_values(|n: String| n@),
                out@.no_duplicates(),
                forall|p: Permission| out@.contains(p) <==> exists|j: int| 0 <= j < i && #[trigger] self.role_grants(nv[j], p),
            decreases names@.len() - i,
        {
            assert(nv[i as int] == names@[i as int]@);
            match self.find_role(&names[i]) {
                Some(k) => {
                    let perms = &self.roles[k].1.permissions;
                    let ghost before = out@;
                    let mut m: usize = 0;
                    while m < perms.len()
                        invariant
                            m <= perms@.len(),
                            i < names@.len(),
                            nv == names@.map_values(|n: String| n@),
                            self.role_permissions(nv[i as int]) == Some(perms@.to_set()),
                            forall|p: Permission| before.contains(p) <==> exists|j: int| 0 <= j < i && #[trigger] self.role_grants(nv[j], p),
                            out@.no_duplicates(),
                            covers(out@, before, perms@.subrange(0, m as int)),
                        decreases perms@.len() - m,
                    {
                        let p = perms[m];
                        let present = holds(&out, p);
                        let ghost prev = out@;
                        let ghost s0 = perms@.subrange(0, m as int);
                        if !present {
                            out.push(p);
                            assert forall|a: int, b: int| 0 <= a < out@.len() && 0 <= b < out@.len() && a != b implies out@[a] != out@[b] by {
                                if a < prev.len() && b < prev.len() {
                                    assert(prev[a] != prev[b]);
                                }
                            }
                        }
                        proof {
                            assert(perms@.subrange(0, m as int + 1) =~= s0.push(p));
                            assert forall|x: Permission| #[trigger] out@.contains(x) == (before.contains(x) || perms@.subrange(0, m as int + 1).contains(x)) by {
                                lemma_push_contains(s0, p, x);
                                assert(prev.contains(x) == (before.contains(x) || s0.contains(x)));
                                if !present {
                                    assert(out@ == prev.push(p));
                                    lemma_push_contains(prev, p, x);
                                }
                            }
                        }
                        m = m + 1;
                    }
                    assert(perms@.subrange(0, perms@.len() as int) =~= perms@);
                    assert(covers(out@, before, perms@));
                    proof { self.lemma_union_step(nv, i as int, before, perms@, out@); }
                },
                None => {
                    proof {
                        assert forall|x: Permission| #[trigger] out@.contains(x) == (out@.contains(x) || Seq::<Permission>::empty().contains(x)) by {}
                        self.lemma_union_step(nv, i as int, out@, Seq::empty(), out@);
                    }
                },
            }
            i = i + 1;
        }
        assert(out@.to_set() =~= self.effective_permissions(nv));
        out
    }
}


/// `out` holds exactly what `a` or `b` holds.
pub open spec fn covers(out: Seq<Permission>, a: Seq<Permission>, b: Seq<Permission>) -> bool {
    forall|x: Permission| #[trigger] out.contains(x) == (a.contains(x) || b.contains(x))
}

/// Whether `v` holds `p`.
fn holds(v: &Vec<Permission>, p: Permission) -> (r: bool)
    ensures
        r == v@.contains(p),
{
    let mut q: usize = 0;
    while q < v.len()
        invariant
            q <= v@.len(),
            forall|j: int| 0 <= j < q ==> v@[j] != p,
        decreases v@.len() - q,
    {
        if v[q] == p {
            assert(v@[q as int] == p);
            return true;
        }
        q = q + 1;
    }
    false
}

/// `s` is a session with this token, user and expiry whose scope holds each
/// permission of `perms` once, and nothing else.
pub open spec fn opened_session(s: Option<SessionView>, token: Seq<char>, user_id: Seq<char>, expires_at: u64, perms: Set<Permission>) -> bool {
    &&& s is Some
    &&& s->0.token == token
    &&& s->0.user_id == user_id
    &&& s->0.expires_at == expires_at
    &&& s->0.scope.to_set() == perms
    &&& s->0.scope.no_duplicates()
}

/// Keeps the sessions that do not belong to user `uid`.
pub open spec fn not_of_user(uid: Seq<char>) -> spec_fn(SessionView) -> bool {
    |s: SessionView| s.user_id != uid
}

/// The message of a refused login.
pub open spec fn invalid_credentials() -> Seq<char> {
    "Invalid credentials"@
}

/// The message of a login to a locked account.
pub open spec fn account_locked() -> Seq<char> {
    "Account locked due to security policy"@
}

impl IdentityProvider {
    /// `token` names a session that has not expired at `now` and holds `perm`.
    pub open spec fn token_allows(&self, token: Seq<char>, perm: Permission, now: u64) -> bool {
        match self.session_with(token) {
            Some(s) => now <= s.expires_at && s.scope.contains(perm),
            None => false,
        }
    }

    /// Stores `s`, replacing the session with the same token if there is one.
    fn put_session(&mut self, s: SessionToken)
        requires
            old(self).wf(),
        ensures
            final(self).wf(),
            final(self).session_with(s.token@) == Some(s.view()),
            forall|t: Seq<char>| t != s.token@ ==> final(self).session_with(t) == old(self).session_with(t),
            final(self).users_view() == old(self).users_view(),
            final(self).role_table() == old(self).role_table(),
    {
        let ghost sv = s.view();
        let ghost tok = s.token@;
        let found = self.find_session(&s.token);
        let ghost idx: int;
        match found {
            Some(i) => {
                self.sessions.set(i, s);
                proof { idx = i as int; }
            },
            None => {
                proof {
                    idx = self.sessions@.len() as int;
                    assert forall|k: int| 0 <= k < self.sessions@.len() implies self.sessions@[k].token@ != tok by {
                        if self.sessions@[k].token@ == tok {
                            assert(self.session_with(tok) is Some);
                        }
                    }
                }
                self.sessions.push(s);
            },
        }
        proof {
            let ov = old(self).sessions_view();
            let nv = self.sessions_view();
            assert(nv.len() >= ov.len());
            assert forall|k: int| 0 <= k < nv.len() && k != idx implies nv[k] == ov[k] && k < ov.len() by {
                assert(nv[k] == self.sessions@[k].view());
                assert(ov[k] == old(self).sessions@[k].view());
            }
            assert(nv[idx] == sv);
            assert forall|k: int| 0 <= k < ov.len() && k != idx implies ov[k].token != tok by {
                assert(ov[k] == old(self).sessions@[k].view());
                if found is Some {
                    assert(ov[idx] == old(self).sessions@[idx].view());
                }
            }
            assert(tokens_distinct(nv));
            self.lemma_session_at(idx);
            assert forall|t: Seq<char>| t != tok implies self.session_with(t) == old(self).session_with(t) by {
                if exists|k: int| 0 <= k < old(self).sessions@.len() && old(self).sessions@[k].token@ == t {
                    let k = choose|k: int| 0 <= k < old(self).sessions@.len() && old(self).sessions@[k].token@ == t;
                    old(self).lemma_session_at(k);
                    assert(ov[k] == old(self).sessions@[k].view());
                    assert(nv[k] == self.sessions@[k].view());
                    self.lemma_session_at(k);
                } else if exists|k: int| 0 <= k < self.sessions@.len() && self.sessions@[k].token@ == t {
                    let k = choose|k: int| 0 <= k < self.sessions@.len() && self.sessions@[k].token@ == t;
                    assert(nv[k] == self.sessions@[k].view());
                    assert(ov[k] == old(self).sessions@[k].view());
                    assert(old(self).sessions@[k].token@ == t);
                }
            }
            assert(self.users_view() =~= old(self).users_view());
            assert(self.role_table() =~= old(self).role_table());
        }
    }

    /// Opens a session for user `u` at `now`; the token is made from `nonce`.
    fn generate_session(&mut self, u: usize, now: u64, nonce: u64) -> (r: String)
        requires
            old(self).wf(),
            u < old(self).users@.len(),
        ensures
            final(self).wf(),
            r@ == token_for(old(self).users_view()[u as int].id, nonce),
            opened_session(final(self).session_with(r@), r@, old(self).users_view()[u as int].id,
                expiry(now, TOKEN_VALIDITY_SEC), old(self).effective_permissions(old(self).users_view()[u as int].roles)),
            forall|t: Seq<char>| t != r@ ==> final(self).session_with(t) == old(self).session_with(t),
            final(self).users_view() == old(self).users_view(),
            final(self).role_table() == old(self).role_table(),
    {
        assert(self.users_view()[u as int] == self.users@[u as int].view());
        let mut token = String::from_str("tkn_");
        push_text(&mut token, self.users[u].id.as_str());
        push_text(&mut token, "_");
        let n = decimal(nonce);
        push_text(&mut token, n.as_str());
        let scope = self.effective_scope(&self.users[u].roles);
        let expires_at = if now > u64::MAX - self.token_validity_sec { u64::MAX } else { now + self.token_validity_sec };
        let session = SessionToken { token: token.clone(), user_id: self.users[u].id.clone(), expires_at, scope };
        self.put_session(session);
        token
    }

    /// Logs `username` in with `password` at `now`; the token is made from
    /// `nonce`. Refused for an unknown name or a wrong password ("Invalid
    /// credentials") and for a locked account.
    pub fn authenticate_with(&mut self, username: &str, password: &str, now: u64, nonce: u64) -> (r: Result<String, String>)
        requires
            old(self).wf(),
        ensures
            final(self).wf(),
            final(self).users_view() == old(self).users_view(),
            final(self).role_table() == old(self).role_table(),
            !old(self).has_user_named(username@) ==> (r matches Err(e) && e@ == invalid_credentials())
                && final(self).sessions_view() == old(self).sessions_view(),
            forall|i: int| #[trigger] old(self).first_named(username@, i) ==> {
                let u = old(self).users_view()[i];
                &&& u.locked ==> (r matches Err(e) && e@ == account_locked())
                    && final(self).sessions_view() == old(self).sessions_view()
                &&& (!u.locked && u.password_hash != password_digest(password.len() as nat)) ==> (r matches Err(e)
                    && e@ == invalid_credentials()) && final(self).sessions_view() == old(self).sessions_view()
                &&& (!u.locked && u.password_hash == password_digest(password.len() as nat)) ==> (r matches Ok(tok)
                    && tok@ == token_for(u.id, nonce)
                    && opened_session(final(self).session_with(tok@), tok@, u.id, expiry(now, TOKEN_VALIDITY_SEC),
                        old(self).effective_permissions(u.roles))
                    && forall|t: Seq<char>| t != tok@ ==> final(self).session_with(t) == old(self).session_with(t))
            },
    {
        let name = String::from_str(username);
        let u = match self.find_user(&name) {
            None => { return Err(String::from_str("Invalid credentials")); },
            Some(u) => u,
        };
        assert(self.users_view()[u as int] == self.users@[u as int].view());
        assert forall|i: int| old(self).first_named(username@, i) implies i == u as int by {
            if i < u { } else if i > u { }
        }
        if self.users[u].locked {
            return Err(String::from_str("Account locked due to security policy"));
        }
        let hashed = self.hash_password(password);
        if !(self.users[u].password_hash == hashed) {
            return Err(String::from_str("Invalid credentials"));
        }
        let token = self.generate_session(u, now, nonce);
        Ok(token)
    }

    /// Logs `username` in with `password` now. Refused for an unknown name or
    /// a wrong password ("Invalid credentials") and for a locked account.
    pub fn authenticate(&mut self, username: &str, password: &str) -> (r: Result<String, String>)
        requires
            old(self).wf(),
        ensures
            final(self).wf(),
            final(self).users_view() == old(self).users_view(),
            !old(self).has_user_named(username@) ==> (r matches Err(e) && e@ == invalid_credentials()),
            forall|i: int| #[trigger] old(self).first_named(username@, i) ==> {
                let u = old(self).users_view()[i];
                &&& u.locked ==> (r matches Err(e) && e@ == account_locked())
                &&& (!u.locked && u.password_hash != password_digest(password.len() as nat)) ==> (r matches Err(e)
                    && e@ == invalid_credentials())
                &&& (!u.locked && u.password_hash == password_digest(password.len() as nat)) ==> (r matches Ok(tok)
                    && opened_session(final(self).session_with(tok@), tok@, u.id,
                        final(self).session_with(tok@)->0.expires_at, old(self).effective_permissions(u.roles)))
            },
    {
        let now = unix_time_secs();
        let nonce = uuid_sim();
        self.authenticate_with(username, password, now, nonce)
    }

    /// Whether `token` names a session that has not expired at `now` and
    /// holds `required_perm`.
    pub fn validate_token_at(&self, token: &str, required_perm: Permission, now: u64) -> (r: bool)
        requires
            self.wf(),
        ensures
            r == self.token_allows(token@, required_perm, now),
    {
        let t = String::from_str(token);
        match self.find_session(&t) {
            None => false,
            Some(i) => {
                let s = &self.sessions[i];
                assert(self.session_with(token@) == Some(s.view()));
                if now > s.expires_at {
                    return false;
                }
                let mut k: usize = 0;
                while k < s.scope.len()
                    invariant
                        self.session_with(token@) == Some(s.view()),
                        now <= s.expires_at,
                        k <= s.scope@.len(),
                        forall|j: int| 0 <= j < k ==> s.scope@[j] != required_perm,
                    decreases s.scope@.len() - k,
                {
                    if s.scope[k] == required_perm {
                        assert(s.scope@[k as int] == required_perm);
                        return true;
                    }
                    k = k + 1;
                }
                false
            },
        }
    }

    /// Whether `token` names a live session that holds `required_perm`.
    pub fn validate_token(&self, token: &str, required_perm: Permission) -> (r: bool)
        requires
            self.wf(),
        ensures
            r ==> (self.session_with(token@) matches Some(s) && s.scope.contains(required_perm)),
    {
        let now = unix_time_secs();
        self.validate_token_at(token, required_perm, now)
    }

    /// Ends every session of user `user_id`.
    pub fn revoke_user_sessions(&mut self, user_id: &str)
        requires
            old(self).wf(),
        ensures
            final(self).wf(),
            final(self).sessions_view() == old(self).sessions_view().filter(not_of_user(user_id@)),
            final(self).users_view() == old(self).users_view(),
            final(self).role_table() == old(self).role_table(),
    {
        let uid = String::from_str(user_id);
        let ghost pred = not_of_user(user_id@);
        let mut all: Vec<SessionToken> = Vec::new();
        std::mem::swap(&mut all, &mut self.sessions);
        let ghost orig = all@.map_values(|s: SessionToken| s.view());
        assert(orig == old(self).sessions_view());
        while all.len() > 0
            invariant
                self.sessions@.map_values(|s: SessionToken| s.view()) + all@.map_values(|s: SessionToken| s.view()).filter(pred)
                    == orig.filter(pred),
                tokens_distinct(self.sessions@.map_values(|s: SessionToken| s.view()) + all@.map_values(|s: SessionToken| s.view())),
                self.users == old(self).users,
                self.roles == old(self).roles,
                self.token_validity_sec == old(self).token_validity_sec,
                pred == not_of_user(user_id@),
                uid@ == user_id@,
            decreases all@.len(),
        {
            let ghost kept = self.sessions@.map_values(|s: SessionToken| s.view());
            let ghost rest = all@.map_values(|s: SessionToken| s.view());
            let s = all.remove(0);
            let ghost tail = all@.map_values(|s: SessionToken| s.view());
            assert(rest =~= seq![s.view()] + tail);
            proof { tail.lemma_filter_prepend(s.view(), pred); }
            assert(rest.filter(pred) == (if pred(s.view()) { seq![s.view()] } else { Seq::empty() }) + tail.filter(pred));
            if !(s.user_id == uid) {
                assert(pred(s.view()));
                self.sessions.push(s);
                assert(self.sessions@.map_values(|s: SessionToken| s.view()) =~= kept.push(s.view()));
                assert(kept + rest =~= kept.push(s.view()) + tail);
                assert(kept.push(s.view()) + tail.filter(pred) =~= kept + (seq![s.view()] + tail.filter(pred)));
            } else {
                assert(!pred(s.view()));
                assert(kept + tail =~= (kept + rest).remove(kept.len() as int));
                proof { lemma_distinct_remove(kept + rest, kept.len() as int); }
                assert(kept + tail.filter(pred) =~= kept + (Seq::<SessionView>::empty() + tail.filter(pred)));
            }
        }
        assert(all@.map_values(|s: SessionToken| s.view()) =~= Seq::<SessionView>::empty());
        assert(self.sessions@.map_values(|s: SessionToken| s.view()) =~= self.sessions_view());
        assert(self.sessions_view() =~= self.sessions_view() + Seq::<SessionView>::empty());
        assert(self.users_view() =~= old(self).users_view());
        assert(self.role_table() =~= old(self).role_table());
    }
}

} // verus!
