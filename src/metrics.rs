use vstd::prelude::*;

verus! {

/// How many times one user took one action.
pub struct ActionCount {
    pub action: String,
    pub user: String,
    pub count: u64,
}

/// How many times one user signed in.
pub struct SigninCount {
    pub user: String,
    pub count: u64,
}

/// Request, action and sign-in counters, held by whoever serves requests
/// and handed to the code that counts. Counters saturate at `u64::MAX`.
pub struct Metrics {
    http_requests: u64,
    actions: Vec<ActionCount>,
    signins: Vec<SigninCount>,
}

/// Adds one, saturating.
pub open spec fn bump(n: u64) -> u64 {
    if n == u64::MAX {
        n
    } else {
        (n + 1) as u64
    }
}

impl Metrics {
    /// Each pair of labels has at most one counter.
    pub closed spec fn wf(&self) -> bool {
        &&& forall|i: int, j: int|
            0 <= i < j < self.actions@.len() ==> (#[trigger] self.actions@[i]).action@ != (#[trigger] self.actions@[j]).action@
                || self.actions@[i].user@ != self.actions@[j].user@
        &&& forall|i: int, j: int|
            0 <= i < j < self.signins@.len() ==> (#[trigger] self.signins@[i]).user@ != (#[trigger] self.signins@[j]).user@
    }

    pub closed spec fn requests_spec(&self) -> u64 {
        self.http_requests
    }

    /// The count of `action` taken by `user`; 0 before the first.
    pub closed spec fn action_spec(&self, action: Seq<char>, user: Seq<char>) -> u64 {
        if exists|i: int| 0 <= i < self.actions@.len() && #[trigger] self.actions@[i].action@ == action && self.actions@[i].user@ == user {
            let i = choose|i: int| 0 <= i < self.actions@.len() && #[trigger] self.actions@[i].action@ == action && self.actions@[i].user@ == user;
            self.actions@[i].count
        } else {
            0
        }
    }

    /// The number of sign-ins of `user`; 0 before the first.
    pub closed spec fn signin_spec(&self, user: Seq<char>) -> u64 {
        if exists|i: int| 0 <= i < self.signins@.len() && #[trigger] self.signins@[i].user@ == user {
            let i = choose|i: int| 0 <= i < self.signins@.len() && #[trigger] self.signins@[i].user@ == user;
            self.signins@[i].count
        } else {
            0
        }
    }

    /// All counters at zero.
    pub fn new() -> (r: Metrics)
        ensures
            r.wf(),
            r.requests_spec() == 0,
            forall|a: Seq<char>, u: Seq<char>| r.action_spec(a, u) == 0,
            forall|u: Seq<char>| r.signin_spec(u) == 0,
    {
        Metrics { http_requests: 0, actions: Vec::new(), signins: Vec::new() }
    }

    /// The number of requests counted.
    pub fn http_requests(&self) -> (r: u64)
        ensures
            r == self.requests_spec(),
    {
        self.http_requests
    }

    fn find_action(&self, action: &String, user: &String) -> (r: Option<usize>)
        requires
            self.wf(),
        ensures
            r matches Some(i) ==> i < self.actions@.len() && self.actions@[i as int].action@ == action@
                && self.actions@[i as int].user@ == user@,
            r is None ==> forall|i: int| 0 <= i < self.actions@.len() ==> #[trigger] self.actions@[i].action@ != action@
                || self.actions@[i].user@ != user@,
    {
        let mut i: usize = 0;
        while i < self.actions.len()
            invariant
                i <= self.actions@.len(),
                forall|j: int| 0 <= j < i ==> #[trigger] self.actions@[j].action@ != action@
                    || self.actions@[j].user@ != user@,
            decreases self.actions@.len() - i,
        {
            if self.actions[i].action.eq(action) && self.actions[i].user.eq(user) {
                return Some(i);
            }
            i = i + 1;
        }
        None
    }

    /// The number of times `user` took `action`.
    pub fn action_count(&self, action: &String, user: &String) -> (r: u64)
        requires
            self.wf(),
        ensures
            r == self.action_spec(action@, user@),
    {
        match self.find_action(action, user) {
            Some(i) => self.actions[i].count,
            None => 0,
        }
    }

    fn find_signin(&self, user: &String) -> (r: Option<usize>)
        ensures
            r matches Some(i) ==> i < self.signins@.len() && self.signins@[i as int].user@ == user@,
            r is None ==> forall|i: int| 0 <= i < self.signins@.len() ==> #[trigger] self.signins@[i].user@ != user@,
    {
        let mut i: usize = 0;
        while i < self.signins.len()
            invariant
                i <= self.signins@.len(),
                forall|j: int| 0 <= j < i ==> #[trigger] self.signins@[j].user@ != user@,
            decreases self.signins@.len() - i,
        {
            if self.signins[i].user.eq(user) {
                return Some(i);
            }
            i = i + 1;
        }
        None
    }

    /// The number of times `user` signed in.
    pub fn signin_count(&self, user: &String) -> (r: u64)
        requires
            self.wf(),
        ensures
            r == self.signin_spec(user@),
    {
        match self.find_signin(user) {
            Some(i) => self.signins[i].count,
            None => 0,
        }
    }
}

/// Counts one request.
pub fn increment_http_req(m: &mut Metrics)
    requires
        old(m).wf(),
    ensures
        final(m).wf(),
        final(m).requests_spec() == bump(old(m).requests_spec()),
        forall|a: Seq<char>, u: Seq<char>| final(m).action_spec(a, u) == old(m).action_spec(a, u),
        forall|u: Seq<char>| final(m).signin_spec(u) == old(m).signin_spec(u),
{
    let ghost before = *m;
    if m.http_requests < u64::MAX {
        m.http_requests = m.http_requests + 1;
    }
    proof {
        assert(m.actions@ == before.actions@);
        assert(m.signins@ == before.signins@);
        assert forall|a: Seq<char>, u: Seq<char>| #[trigger] m.action_spec(a, u) == before.action_spec(a, u) by {}
        assert forall|u: Seq<char>| #[trigger] m.signin_spec(u) == before.signin_spec(u) by {}
    }
}

/// Counts one `action` taken by `user`.
pub fn increment_action(m: &mut Metrics, action: &String, user: &String)
    requires
        old(m).wf(),
    ensures
        final(m).wf(),
        final(m).requests_spec() == old(m).requests_spec(),
        final(m).action_spec(action@, user@) == bump(old(m).action_spec(action@, user@)),
        forall|a: Seq<char>, u: Seq<char>|
            !(a == action@ && u == user@) ==> #[trigger] final(m).action_spec(a, u) == old(m).action_spec(a, u),
        forall|u: Seq<char>| #[trigger] final(m).signin_spec(u) == old(m).signin_spec(u),
{
    let ghost before = *m;
    match m.find_action(action, user) {
        Some(i) => {
            let c = m.actions[i].count;
            let next = if c < u64::MAX { c + 1 } else { c };
            let entry = ActionCount { action: action.clone(), user: user.clone(), count: next };
            m.actions.set(i, entry);
            proof {
                assert forall|j: int| 0 <= j < m.actions@.len() implies #[trigger] m.actions@[j].action@ == before.actions@[j].action@
                    && m.actions@[j].user@ == before.actions@[j].user@ by {}
                assert(m.wf());
                assert(m.action_spec(action@, user@) == next) by {
                    assert(m.actions@[i as int].action@ == action@ && m.actions@[i as int].user@ == user@);
                    let k = choose|k: int| 0 <= k < m.actions@.len() && #[trigger] m.actions@[k].action@ == action@ && m.actions@[k].user@ == user@;
                    assert(k == i);
                }
                assert(before.action_spec(action@, user@) == c) by {
                    assert(before.actions@[i as int].action@ == action@ && before.actions@[i as int].user@ == user@);
                    let k = choose|k: int| 0 <= k < before.actions@.len() && #[trigger] before.actions@[k].action@ == action@ && before.actions@[k].user@ == user@;
                    assert(k == i);
                }
                assert forall|a: Seq<char>, u: Seq<char>| !(a == action@ && u == user@) implies #[trigger] m.action_spec(a, u) == before.action_spec(a, u) by {
                    if exists|k: int| 0 <= k < before.actions@.len() && #[trigger] before.actions@[k].action@ == a && before.actions@[k].user@ == u {
                        let k = choose|k: int| 0 <= k < before.actions@.len() && #[trigger] before.actions@[k].action@ == a && before.actions@[k].user@ == u;
                        assert(m.actions@[k].action@ == a && m.actions@[k].user@ == u);
                        let k2 = choose|k: int| 0 <= k < m.actions@.len() && #[trigger] m.actions@[k].action@ == a && m.actions@[k].user@ == u;
                        assert(k2 == k);
                    } else {
                        assert forall|k: int| 0 <= k < m.actions@.len() implies !(#[trigger] m.actions@[k].action@ == a && m.actions@[k].user@ == u) by {
                            assert(before.actions@[k].action@ == m.actions@[k].action@);
                        }
                    }
                }
                assert(m.signins@ == before.signins@);
                assert forall|u: Seq<char>| #[trigger] m.signin_spec(u) == before.signin_spec(u) by {}
            }
        },
        None => {
            let entry = ActionCount { action: action.clone(), user: user.clone(), count: 1 };
            m.actions.push(entry);
            proof {
                let n = before.actions@.len() as int;
                assert forall|j: int| 0 <= j < n implies #[trigger] m.actions@[j] == before.actions@[j] by {}
                assert(m.wf());
                assert(before.action_spec(action@, user@) == 0);
                assert(m.action_spec(action@, user@) == 1) by {
                    assert(m.actions@[n].action@ == action@ && m.actions@[n].user@ == user@);
                    let k = choose|k: int| 0 <= k < m.actions@.len() && #[trigger] m.actions@[k].action@ == action@ && m.actions@[k].user@ == user@;
                    assert(k == n);
                }
                assert forall|a: Seq<char>, u: Seq<char>| !(a == action@ && u == user@) implies #[trigger] m.action_spec(a, u) == before.action_spec(a, u) by {
                    if exists|k: int| 0 <= k < before.actions@.len() && #[trigger] before.actions@[k].action@ == a && before.actions@[k].user@ == u {
                        let k = choose|k: int| 0 <= k < before.actions@.len() && #[trigger] before.actions@[k].action@ == a && before.actions@[k].user@ == u;
                        assert(m.actions@[k].action@ == a && m.actions@[k].user@ == u);
                        let k2 = choose|k: int| 0 <= k < m.actions@.len() && #[trigger] m.actions@[k].action@ == a && m.actions@[k].user@ == u;
                        assert(k2 == k);
                    } else {
                        assert forall|k: int| 0 <= k < m.actions@.len() implies !(#[trigger] m.actions@[k].action@ == a && m.actions@[k].user@ == u) by {
                            if k < n {
                                assert(before.actions@[k] == m.actions@[k]);
                            }
                        }
                    }
                }
                assert(m.signins@ == before.signins@);
                assert forall|u: Seq<char>| #[trigger] m.signin_spec(u) == before.signin_spec(u) by {}
            }
        },
    }
}

/// Counts one sign-in of `user`.
pub fn increment_signin(m: &mut Metrics, user: &String)
    requires
        old(m).wf(),
    ensures
        final(m).wf(),
        final(m).requests_spec() == old(m).requests_spec(),
        final(m).signin_spec(user@) == bump(old(m).signin_spec(user@)),
        forall|u: Seq<char>| u != user@ ==> #[trigger] final(m).signin_spec(u) == old(m).signin_spec(u),
        forall|a: Seq<char>, u: Seq<char>| #[trigger] final(m).action_spec(a, u) == old(m).action_spec(a, u),
{
    let ghost before = *m;
    match m.find_signin(user) {
        Some(i) => {
            let c = m.signins[i].count;
            let next = if c < u64::MAX { c + 1 } else { c };
            m.signins.set(i, SigninCount { user: user.clone(), count: next });
            proof {
                assert forall|j: int| 0 <= j < m.signins@.len() implies #[trigger] m.signins@[j].user@ == before.signins@[j].user@ by {}
                assert(m.wf());
                assert(m.signin_spec(user@) == next) by {
                    assert(m.signins@[i as int].user@ == user@);
                    let k = choose|k: int| 0 <= k < m.signins@.len() && #[trigger] m.signins@[k].user@ == user@;
                    assert(k == i);
                }
                assert(before.signin_spec(user@) == c) by {
                    assert(before.signins@[i as int].user@ == user@);
                    let k = choose|k: int| 0 <= k < before.signins@.len() && #[trigger] before.signins@[k].user@ == user@;
                    assert(k == i);
                }
                assert forall|u: Seq<char>| u != user@ implies #[trigger] m.signin_spec(u) == before.signin_spec(u) by {
                    if exists|k: int| 0 <= k < before.signins@.len() && #[trigger] before.signins@[k].user@ == u {
                        let k = choose|k: int| 0 <= k < before.signins@.len() && #[trigger] before.signins@[k].user@ == u;
                        assert(m.signins@[k].user@ == u);
                        let k2 = choose|k: int| 0 <= k < m.signins@.len() && #[trigger] m.signins@[k].user@ == u;
                        assert(k2 == k);
                    } else {
                        assert forall|k: int| 0 <= k < m.signins@.len() implies #[trigger] m.signins@[k].user@ != u by {
                            assert(before.signins@[k].user@ == m.signins@[k].user@);
                        }
                    }
                }
                assert(m.actions@ == before.actions@);
                assert forall|a: Seq<char>, u: Seq<char>| #[trigger] m.action_spec(a, u) == before.action_spec(a, u) by {}
            }
        },
        None => {
            m.signins.push(SigninCount { user: user.clone(), count: 1 });
            proof {
                let n = before.signins@.len() as int;
                assert forall|j: int| 0 <= j < n implies #[trigger] m.signins@[j] == before.signins@[j] by {}
                assert(m.wf());
                assert(m.signin_spec(user@) == 1) by {
                    assert(m.signins@[n].user@ == user@);
                    let k = choose|k: int| 0 <= k < m.signins@.len() && #[trigger] m.signins@[k].user@ == user@;
                    assert(k == n);
                }
                assert forall|u: Seq<char>| u != user@ implies #[trigger] m.signin_spec(u) == before.signin_spec(u) by {
                    if exists|k: int| 0 <= k < before.signins@.len() && #[trigger] before.signins@[k].user@ == u {
                        let k = choose|k: int| 0 <= k < before.signins@.len() && #[trigger] before.signins@[k].user@ == u;
                        assert(m.signins@[k].user@ == u);
                        let k2 = choose|k: int| 0 <= k < m.signins@.len() && #[trigger] m.signins@[k].user@ == u;
                        assert(k2 == k);
                    } else {
                        assert forall|k: int| 0 <= k < m.signins@.len() implies #[trigger] m.signins@[k].user@ != u by {
                            if k < n {
                                assert(before.signins@[k] == m.signins@[k]);
                            }
                        }
                    }
                }
                assert(m.actions@ == before.actions@);
                assert forall|a: Seq<char>, u: Seq<char>| #[trigger] m.action_spec(a, u) == before.action_spec(a, u) by {}
            }
        },
    }
}

} // verus!
