use vstd::prelude::*;

use crate::error::CatalogError;

verus! {

/// The identity and session guard.  It holds the single configured
/// administrator credential and the set of live session tokens.  A token is
/// issued on successful login, checked by `validate` before every mutation,
/// and withdrawn by `invalidate` (logout).  Tokens are opaque to callers;
/// internally they come from a strictly increasing counter, so a live token
/// is never reissued.
pub struct SessionGuard {
    admin_username: String,
    admin_password: String,
    sessions: Vec<u64>,
    next_token: u64,
}

impl SessionGuard {
    /// The token the guard would issue next.
    pub closed spec fn token_cursor(&self) -> int {
        self.next_token as int
    }

    /// Whether `token` belongs to a live (authenticated) session.
    pub closed spec fn is_active(&self, token: u64) -> bool {
        self.sessions@.contains(token)
    }

    /// Whether `username`/`password` is the administrator credential.
    pub closed spec fn credentials_match(&self, username: Seq<char>, password: Seq<char>) -> bool {
        username == self.admin_username@ && password == self.admin_password@
    }

    /// Well-formedness: live tokens are unique and below the cursor, so a
    /// freshly issued token can never collide with a live one.
    pub closed spec fn wf(&self) -> bool {
        &&& forall|i: int, j: int|
            0 <= i < j < self.sessions@.len() ==> self.sessions@[i] != self.sessions@[j]
        &&& forall|i: int|
            0 <= i < self.sessions@.len() ==> #[trigger] self.sessions@[i] < self.next_token
    }

    /// Whether one more token can still be issued.
    pub open spec fn can_issue(&self) -> bool {
        self.token_cursor() < u64::MAX as int
    }

    /// A guard for the given administrator credential, with no live
    /// session.
    pub fn new(admin_username: String, admin_password: String) -> (g: Self)
        ensures
            g.wf(),
            forall|t: u64| !g.is_active(t),
            g.token_cursor() == 1,
            forall|u: Seq<char>, p: Seq<char>|
                #[trigger] g.credentials_match(u, p) == (u == admin_username@ && p
                    == admin_password@),
    {
        SessionGuard {
            admin_username: admin_username,
            admin_password: admin_password,
            sessions: Vec::new(),
            next_token: 1,
        }
    }

    /// The position of `token` among the live sessions, if any.
    fn index_of_token(&self, token: u64) -> (r: Option<usize>)
        ensures
            match r {
                Some(i) => i < self.sessions@.len() && self.sessions@[i as int] == token,
                None => !self.sessions@.contains(token),
            },
    {
        let n = self.sessions.len();
        let mut i: usize = 0;
        while i < n
            invariant
                n == self.sessions.len(),
                i <= n,
                forall|j: int| 0 <= j < i ==> self.sessions@[j] != token,
            decreases n - i,
        {
            if self.sessions[i] == token {
                return Some(i);
            }
            i += 1;
        }
        proof {
            assert(!self.sessions@.contains(token)) by {
                if self.sessions@.contains(token) {
                    let w = choose|w: int|
                        0 <= w < self.sessions@.len() && self.sessions@[w] == token;
                    assert(self.sessions@[w] != token);
                }
            }
        }
        None
    }

    /// Whether one more token can still be issued (`authenticate`'s
    /// precondition), so that an unverified caller can test it first.
    pub fn can_issue_now(&self) -> (b: bool)
        ensures
            b == self.can_issue(),
    {
        self.next_token < u64::MAX
    }

    /// Check a credential submission; on the administrator credential issue
    /// and record a fresh session token, otherwise `InvalidCredentials` and
    /// no session is issued.
    pub fn authenticate(&mut self, username: &String, password: &String) -> (r: Result<
        u64,
        CatalogError,
    >)
        requires
            old(self).wf(),
            old(self).can_issue(),
        ensures
            final(self).wf(),
            !old(self).credentials_match(username@, password@) ==> r == Err::<u64, CatalogError>(
                CatalogError::InvalidCredentials,
            ) && *final(self) == *old(self),
            old(self).credentials_match(username@, password@) ==> {
                &&& r is Ok
                &&& final(self).is_active(r->Ok_0)
                &&& !old(self).is_active(r->Ok_0)
                &&& forall|t: u64|
                    t != r->Ok_0 ==> final(self).is_active(t) == old(self).is_active(t)
                &&& final(self).token_cursor() == old(self).token_cursor() + 1
            },
            forall|u: Seq<char>, p: Seq<char>|
                #[trigger] final(self).credentials_match(u, p) == old(self).credentials_match(
                    u,
                    p,
                ),
    {
        if *username == self.admin_username && *password == self.admin_password {
            let token = self.next_token;
            let ghost pre = self.sessions@;
            self.sessions.push(token);
            self.next_token = self.next_token + 1;
            proof {
                assert(self.sessions@ == pre.push(token));
                assert(self.sessions@[pre.len() as int] == token);
                assert(!pre.contains(token)) by {
                    if pre.contains(token) {
                        let w = choose|w: int| 0 <= w < pre.len() && pre[w] == token;
                        assert(pre[w] < token);
                    }
                }
                assert forall|a: int, b: int|
                    0 <= a < b < self.sessions@.len() implies self.sessions@[a]
                    != self.sessions@[b] by {
                    if b < pre.len() {
                        assert(self.sessions@[a] == pre[a] && self.sessions@[b] == pre[b]);
                    } else {
                        assert(self.sessions@[a] == pre[a] && pre[a] < token);
                        assert(self.sessions@[b] == token);
                    }
                }
                assert forall|a: int|
                    0 <= a < self.sessions@.len() implies #[trigger] self.sessions@[a]
                    < self.next_token by {
                    if a < pre.len() {
                        assert(self.sessions@[a] == pre[a] && pre[a] < token);
                    } else {
                        assert(self.sessions@[a] == token);
                    }
                }
                assert(self.sessions@.contains(token));
                assert forall|t: u64| t != token implies self.sessions@.contains(t)
                    == pre.contains(t) by {
                    if self.sessions@.contains(t) {
                        let w = choose|w: int|
                            0 <= w < self.sessions@.len() && self.sessions@[w] == t;
                        assert(w < pre.len() && pre[w] == t);
                    }
                    if pre.contains(t) {
                        let w = choose|w: int| 0 <= w < pre.len() && pre[w] == t;
                        assert(self.sessions@[w] == t);
                    }
                }
            }
            Ok(token)
        } else {
            Err(CatalogError::InvalidCredentials)
        }
    }

    /// Whether `token` is a live session: `Authenticated` or `Anonymous`.
    pub fn validate(&self, token: u64) -> (b: bool)
        ensures
            b == self.is_active(token),
    {
        match self.index_of_token(token) {
            Some(i) => {
                proof {
                    assert(self.sessions@.contains(token));
                }
                true
            },
            None => false,
        }
    }

    /// End the session `token` (logout); ending an already dead session is
    /// allowed and does nothing.
    pub fn invalidate(&mut self, token: u64)
        requires
            old(self).wf(),
        ensures
            final(self).wf(),
            !final(self).is_active(token),
            forall|t: u64| t != token ==> final(self).is_active(t) == old(self).is_active(t),
            final(self).token_cursor() == old(self).token_cursor(),
            forall|u: Seq<char>, p: Seq<char>|
                #[trigger] final(self).credentials_match(u, p) == old(self).credentials_match(
                    u,
                    p,
                ),
    {
        match self.index_of_token(token) {
            Some(i) => {
                let ghost pre = self.sessions@;
                self.sessions.remove(i);
                proof {
                    let es = self.sessions@;
                    assert(es == pre.remove(i as int));
                    assert(forall|a: int|
                        0 <= a < es.len() ==> #[trigger] es[a] == (if a < i as int {
                            pre[a]
                        } else {
                            pre[a + 1]
                        }));
                    assert forall|a: int, b: int| 0 <= a < b < es.len() implies es[a] != es[b] by {
                        let a0 = if a < i as int { a } else { a + 1 };
                        let b0 = if b < i as int { b } else { b + 1 };
                        assert(es[a] == pre[a0] && es[b] == pre[b0] && a0 < b0);
                    }
                    assert forall|a: int|
                        0 <= a < es.len() implies #[trigger] es[a] < self.next_token by {
                        let a0 = if a < i as int { a } else { a + 1 };
                        assert(es[a] == pre[a0]);
                    }
                    assert(!es.contains(token)) by {
                        if es.contains(token) {
                            let w = choose|w: int| 0 <= w < es.len() && es[w] == token;
                            let w0 = if w < i as int { w } else { w + 1 };
                            assert(es[w] == pre[w0] && w0 != i as int);
                            assert(pre[i as int] == token);
                            if w0 < i as int {
                                assert(pre[w0] != pre[i as int]);
                            } else {
                                assert(pre[i as int] != pre[w0]);
                            }
                        }
                    }
                    assert forall|t: u64| t != token implies es.contains(t) == pre.contains(
                        t,
                    ) by {
                        if es.contains(t) {
                            let w = choose|w: int| 0 <= w < es.len() && es[w] == t;
                            let w0 = if w < i as int { w } else { w + 1 };
                            assert(0 <= w0 < pre.len() && pre[w0] == t);
                        }
                        if pre.contains(t) {
                            let w = choose|w: int| 0 <= w < pre.len() && pre[w] == t;
                            assert(w != i as int);
                            let w1 = if w < i as int { w } else { w - 1 };
                            assert(es[w1] == t);
                        }
                    }
                }
            },
            None => {},
        }
    }
}

} // verus!
