use vstd::prelude::*;

verus! {

/// One live connection: the group it watches, the member it belongs to, the
/// handle that messages for it are sent through, and the token that tells
/// this registration apart from any other under the same key.
pub struct Connection<H> {
    pub group_id: String,
    pub member_id: String,
    pub handle: H,
    pub token: u64,
}

/// The live connections of all groups, at most one per (group, member) key.
/// A group with no live connection has no entry at all.
pub struct Registry<H> {
    connections: Vec<Connection<H>>,
    next_token: u64,
}

/// A connection viewed as its key, its handle and its token.
pub open spec fn entry_view<H>(c: Connection<H>) -> (Seq<char>, Seq<char>, H, u64) {
    (c.group_id@, c.member_id@, c.handle, c.token)
}

/// The handles of the entries of `s` that belong to group `g`, in order.
pub open spec fn handles_in<H>(s: Seq<(Seq<char>, Seq<char>, H, u64)>, g: Seq<char>) -> Seq<H>
    decreases s.len(),
{
    if s.len() == 0 {
        Seq::empty()
    } else {
        let rest = handles_in(s.drop_last(), g);
        if s.last().0 == g {
            rest.push(s.last().2)
        } else {
            rest
        }
    }
}

impl<H> Registry<H> {
    /// The live connections, oldest first.
    pub closed spec fn view(&self) -> Seq<(Seq<char>, Seq<char>, H, u64)> {
        self.connections@.map_values(|c: Connection<H>| entry_view(c))
    }

    /// The token that the next registration receives.
    pub closed spec fn next_token(&self) -> u64 {
        self.next_token
    }

    /// No two live connections share a (group, member) key, and every live
    /// token was handed out before the next one.
    pub open spec fn wf(&self) -> bool {
        &&& forall|a: int, b: int|
            0 <= a < self@.len() && 0 <= b < self@.len() && a != b ==> (#[trigger] self@[a]).0
                != (#[trigger] self@[b]).0 || self@[a].1 != self@[b].1
        &&& forall|k: int| 0 <= k < self@.len() ==> (#[trigger] self@[k]).3 < self.next_token()
    }

    /// Whether a fresh token remains for one more registration.
    pub open spec fn can_register_spec(&self) -> bool {
        self.next_token() < u64::MAX
    }

    /// Whether a live connection is registered under (`g`, `m`).
    pub open spec fn is_live(&self, g: Seq<char>, m: Seq<char>) -> bool {
        exists|k: int| 0 <= k < self@.len() && (#[trigger] self@[k]).0 == g && self@[k].1 == m
    }

    /// The handle of the live connection under (`g`, `m`), if any.
    pub open spec fn live(&self, g: Seq<char>, m: Seq<char>) -> Option<H> {
        if self.is_live(g, m) {
            Some(
                self@[choose|k: int|
                    0 <= k < self@.len() && (#[trigger] self@[k]).0 == g && self@[k].1 == m].2,
            )
        } else {
            None
        }
    }

    /// The token of the live connection under (`g`, `m`), if any.
    pub open spec fn live_token(&self, g: Seq<char>, m: Seq<char>) -> Option<u64> {
        if self.is_live(g, m) {
            Some(
                self@[choose|k: int|
                    0 <= k < self@.len() && (#[trigger] self@[k]).0 == g && self@[k].1 == m].3,
            )
        } else {
            None
        }
    }

    /// Whether group `g` has at least one live connection, hence an entry.
    pub open spec fn has_group(&self, g: Seq<char>) -> bool {
        exists|k: int| 0 <= k < self@.len() && (#[trigger] self@[k]).0 == g
    }

    /// The handles that a broadcast to group `g` reaches, in registration
    /// order.
    pub open spec fn handles_of(&self, g: Seq<char>) -> Seq<H> {
        handles_in(self@, g)
    }

    proof fn lemma_live_at(&self, k: int)
        requires
            self.wf(),
            0 <= k < self@.len(),
        ensures
            self.live(self@[k].0, self@[k].1) == Some(self@[k].2),
            self.live_token(self@[k].0, self@[k].1) == Some(self@[k].3),
    {
    }

    /// An empty registry.
    pub fn new() -> (r: Self)
        ensures
            r.wf(),
            r.can_register_spec(),
            r@.len() == 0,
            forall|g: Seq<char>, m: Seq<char>| #[trigger] r.live(g, m) is None,
    {
        Registry { connections: Vec::new(), next_token: 0 }
    }

    /// Whether a fresh token remains for one more registration.
    pub fn can_register(&self) -> (r: bool)
        ensures
            r == self.can_register_spec(),
    {
        self.next_token < u64::MAX
    }

    /// The position of the live connection under (`g`, `m`), if any.
    fn find(&self, g: &String, m: &String) -> (r: Option<usize>)
        requires
            self.wf(),
        ensures
            r is None ==> !self.is_live(g@, m@),
            r is Some ==> r->0 < self@.len() && self@[r->0 as int].0 == g@ && self@[r->0 as int].1
                == m@,
    {
        let mut k: usize = 0;
        while k < self.connections.len()
            invariant
                k <= self@.len(),
                self@.len() == self.connections@.len(),
                forall|x: int| 0 <= x < k ==> (#[trigger] self@[x]).0 != g@ || self@[x].1 != m@,
            decreases self.connections.len() - k,
        {
            let c = &self.connections[k];
            assert(self@[k as int] == entry_view(self.connections@[k as int]));
            if c.group_id == *g && c.member_id == *m {
                return Some(k);
            }
            k = k + 1;
        }
        None
    }

    /// Registers `handle` under (`group_id`, `member_id`) and returns the
    /// registration's token, fresh among all live tokens, with the handle of
    /// the connection it displaced, if one was live under that key: the
    /// newest registration wins. Every other key keeps its connection.
    pub fn register(&mut self, group_id: String, member_id: String, handle: H) -> (r: (
        u64,
        Option<H>,
    ))
        requires
            old(self).wf(),
            old(self).can_register_spec(),
        ensures
            final(self).wf(),
            r.1 == old(self).live(group_id@, member_id@),
            final(self).live(group_id@, member_id@) == Some(handle),
            final(self).live_token(group_id@, member_id@) == Some(r.0),
            forall|g: Seq<char>, m: Seq<char>| #[trigger] old(self).live_token(g, m) != Some(r.0),
            final(self).next_token() == old(self).next_token() + 1,
            forall|g: Seq<char>, m: Seq<char>|
                (g != group_id@ || m != member_id@) ==> #[trigger] final(self).live(g, m) == old(
                    self,
                ).live(g, m) && final(self).live_token(g, m) == old(self).live_token(g, m),
    {
        let ghost g0 = group_id@;
        let ghost m0 = member_id@;
        let ghost before = *self;
        let found = self.find(&group_id, &member_id);
        let displaced = match found {
            Some(k) => {
                proof {
                    self.lemma_live_at(k as int);
                }
                let old_conn = self.connections.remove(k);
                Some(old_conn.handle)
            },
            None => None,
        };
        let ghost middle = self@;
        let token = self.next_token;
        self.connections.push(Connection { group_id, member_id, handle, token });
        self.next_token = self.next_token + 1;
        proof {
            assert(self@ =~= middle.push((g0, m0, handle, token)));
            match found {
                Some(k) => {
                    assert(middle =~= before@.remove(k as int));
                },
                None => {
                    assert(middle =~= before@);
                },
            }
            let n = self@.len() - 1;
            assert forall|a: int, b: int|
                0 <= a < self@.len() && 0 <= b < self@.len() && a != b implies (
                #[trigger] self@[a]).0 != (#[trigger] self@[b]).0 || self@[a].1 != self@[b].1 by {
                if a == n || b == n {
                    let o = if a == n { b } else { a };
                    match found {
                        Some(k) => {
                            if o < k {
                                assert(self@[o] == before@[o]);
                            } else {
                                assert(self@[o] == before@[o + 1]);
                                assert(o + 1 != k);
                            }
                        },
                        None => {
                            assert(self@[o] == before@[o]);
                        },
                    }
                } else {
                    match found {
                        Some(k) => {
                            let a0 = if a < k { a } else { a + 1 };
                            let b0 = if b < k { b } else { b + 1 };
                            assert(self@[a] == before@[a0]);
                            assert(self@[b] == before@[b0]);
                        },
                        None => {
                            assert(self@[a] == before@[a]);
                            assert(self@[b] == before@[b]);
                        },
                    }
                }
            }
            assert forall|k: int| 0 <= k < self@.len() implies (#[trigger] self@[k]).3
                < self.next_token() by {
                if k < n {
                    match found {
                        Some(kk) => {
                            let x = if k < kk { k } else { k + 1 };
                            assert(self@[k] == before@[x]);
                        },
                        None => {
                            assert(self@[k] == before@[k]);
                        },
                    }
                }
            }
            self.lemma_live_at(n);
            assert forall|g: Seq<char>, m: Seq<char>| #[trigger] before.live_token(g, m) != Some(
                token,
            ) by {
                if before.is_live(g, m) {
                    let x = choose|x: int|
                        0 <= x < before@.len() && (#[trigger] before@[x]).0 == g && before@[x].1
                            == m;
                    before.lemma_live_at(x);
                }
            }
            assert forall|g: Seq<char>, m: Seq<char>|
                (g != g0 || m != m0) implies #[trigger] self.live(g, m) == before.live(g, m)
                && self.live_token(g, m) == before.live_token(g, m) by {
                if before.is_live(g, m) {
                    let x = choose|x: int|
                        0 <= x < before@.len() && (#[trigger] before@[x]).0 == g && before@[x].1
                            == m;
                    before.lemma_live_at(x);
                    match found {
                        Some(k) => {
                            assert(x != k);
                            let y = if x < k { x } else { x - 1 };
                            assert(self@[y] == before@[x]);
                            self.lemma_live_at(y);
                        },
                        None => {
                            assert(self@[x] == before@[x]);
                            self.lemma_live_at(x);
                        },
                    }
                } else {
                    if self.is_live(g, m) {
                        let y = choose|y: int|
                            0 <= y < self@.len() && (#[trigger] self@[y]).0 == g && self@[y].1
                                == m;
                        match found {
                            Some(k) => {
                                let x = if y < k { y } else { y + 1 };
                                assert(self@[y] == before@[x]);
                            },
                            None => {
                                assert(self@[y] == before@[y]);
                            },
                        }
                    }
                }
            }
        }
        (token, displaced)
    }

    /// Removes the connection under (`group_id`, `member_id`) and returns its
    /// handle; does nothing when none is live there. A group whose last
    /// connection leaves has no entry left. Every other key keeps its
    /// connection.
    pub fn unregister(&mut self, group_id: &String, member_id: &String) -> (r: Option<H>)
        requires
            old(self).wf(),
        ensures
            final(self).wf(),
            r == old(self).live(group_id@, member_id@),
            final(self).live(group_id@, member_id@) is None,
            final(self).live_token(group_id@, member_id@) is None,
            final(self).next_token() == old(self).next_token(),
            forall|g: Seq<char>, m: Seq<char>|
                (g != group_id@ || m != member_id@) ==> #[trigger] final(self).live(g, m) == old(
                    self,
                ).live(g, m) && final(self).live_token(g, m) == old(self).live_token(g, m),
    {
        let ghost before = *self;
        let found = self.find(group_id, member_id);
        match found {
            Some(k) => {
                proof {
                    self.lemma_live_at(k as int);
                }
                let old_conn = self.connections.remove(k);
                proof {
                    assert(self@ =~= before@.remove(k as int));
                    assert forall|a: int, b: int|
                        0 <= a < self@.len() && 0 <= b < self@.len() && a != b implies (
                        #[trigger] self@[a]).0 != (#[trigger] self@[b]).0 || self@[a].1
                        != self@[b].1 by {
                        let a0 = if a < k { a } else { a + 1 };
                        let b0 = if b < k { b } else { b + 1 };
                        assert(self@[a] == before@[a0]);
                        assert(self@[b] == before@[b0]);
                    }
                    assert forall|j: int| 0 <= j < self@.len() implies (#[trigger] self@[j]).3
                        < self.next_token() by {
                        let x = if j < k { j } else { j + 1 };
                        assert(self@[j] == before@[x]);
                    }
                    assert forall|g: Seq<char>, m: Seq<char>|
                        (g != group_id@ || m != member_id@) implies #[trigger] self.live(g, m)
                        == before.live(g, m) && self.live_token(g, m) == before.live_token(g, m) by {
                        if before.is_live(g, m) {
                            let x = choose|x: int|
                                0 <= x < before@.len() && (#[trigger] before@[x]).0 == g
                                    && before@[x].1 == m;
                            before.lemma_live_at(x);
                            assert(x != k);
                            let y = if x < k { x } else { x - 1 };
                            assert(self@[y] == before@[x]);
                            self.lemma_live_at(y);
                        } else if self.is_live(g, m) {
                            let y = choose|y: int|
                                0 <= y < self@.len() && (#[trigger] self@[y]).0 == g
                                    && self@[y].1 == m;
                            let x = if y < k { y } else { y + 1 };
                            assert(self@[y] == before@[x]);
                        }
                    }
                    if self.is_live(group_id@, member_id@) {
                        let y = choose|y: int|
                            0 <= y < self@.len() && (#[trigger] self@[y]).0 == group_id@
                                && self@[y].1 == member_id@;
                        let x = if y < k { y } else { y + 1 };
                        assert(self@[y] == before@[x]);
                    }
                }
                Some(old_conn.handle)
            },
            None => None,
        }
    }

    /// Removes the connection under (`group_id`, `member_id`) only when it is
    /// the registration that received `token`, and returns its handle. When a
    /// newer registration has displaced that one, or none is live under the
    /// key, nothing changes: a displaced connection's cleanup never removes
    /// the connection that replaced it.
    pub fn unregister_own(&mut self, group_id: &String, member_id: &String, token: u64) -> (r:
        Option<H>)
        requires
            old(self).wf(),
        ensures
            final(self).wf(),
            old(self).live_token(group_id@, member_id@) == Some(token) ==> {
                &&& r == old(self).live(group_id@, member_id@)
                &&& final(self).live(group_id@, member_id@) is None
                &&& final(self).next_token() == old(self).next_token()
                &&& forall|g: Seq<char>, m: Seq<char>|
                    (g != group_id@ || m != member_id@) ==> #[trigger] final(self).live(g, m)
                        == old(self).live(g, m)
                        && final(self).live_token(g, m) == old(self).live_token(g, m)
            },
            old(self).live_token(group_id@, member_id@) != Some(token) ==> r is None
                && *final(self) == *old(self),
    {
        match self.find(group_id, member_id) {
            Some(k) => {
                proof {
                    self.lemma_live_at(k as int);
                    assert(self@[k as int] == entry_view(self.connections@[k as int]));
                }
                if self.connections[k].token == token {
                    self.unregister(group_id, member_id)
                } else {
                    None
                }
            },
            None => None,
        }
    }

    /// The handles of the live connections of group `group_id`, each once,
    /// in registration order: the ones that a broadcast to that group
    /// reaches. None where the group has no live connection.
    pub fn recipients(&self, group_id: &String) -> (r: Vec<&H>)
        requires
            self.wf(),
        ensures
            r@.map_values(|h: &H| *h) == self.handles_of(group_id@),
            !self.has_group(group_id@) ==> r@.len() == 0,
            exists|ms: Seq<Seq<char>>|
                {
                    &&& ms.len() == r@.len()
                    &&& ms.no_duplicates()
                    &&& forall|i: int|
                        0 <= i < ms.len() ==> self.live(group_id@, #[trigger] ms[i]) == Some(
                            *r@[i],
                        )
                    &&& forall|m: Seq<char>|
                        #[trigger] self.is_live(group_id@, m) ==> ms.contains(m)
                },
    {
        let mut r: Vec<&H> = Vec::new();
        let ghost mut ms: Seq<Seq<char>> = Seq::empty();
        let ghost mut idx: Seq<int> = Seq::empty();
        let mut k: usize = 0;
        while k < self.connections.len()
            invariant
                self.wf(),
                k <= self@.len(),
                self@.len() == self.connections@.len(),
                r@.map_values(|h: &H| *h) == handles_in(self@.take(k as int), group_id@),
                !self.has_group(group_id@) ==> r@.len() == 0,
                ms.len() == r@.len(),
                idx.len() == r@.len(),
                forall|i: int|
                    0 <= i < idx.len() ==> 0 <= #[trigger] idx[i] < k && self@[idx[i]].0
                        == group_id@ && self@[idx[i]].1 == ms[i] && self@[idx[i]].2 == *r@[i],
                forall|i: int, j: int| 0 <= i < j < idx.len() ==> #[trigger] idx[i] < #[trigger] idx[j],
                forall|x: int|
                    0 <= x < k && (#[trigger] self@[x]).0 == group_id@ ==> exists|i: int|
                        0 <= i < idx.len() && #[trigger] idx[i] == x,
            decreases self.connections.len() - k,
        {
            let c = &self.connections[k];
            assert(self@[k as int] == entry_view(self.connections@[k as int]));
            assert(self@.take(k + 1).drop_last() =~= self@.take(k as int));
            let ghost prev = r@;
            let ghost prev_idx = idx;
            if c.group_id == *group_id {
                r.push(&c.handle);
                assert(r@.map_values(|h: &H| *h) =~= prev.map_values(|h: &H| *h).push(c.handle));
                proof {
                    ms = ms.push(c.member_id@);
                    idx = idx.push(k as int);
                    assert(idx[idx.len() - 1] == k);
                    assert forall|x: int|
                        0 <= x < k + 1 && (#[trigger] self@[x]).0 == group_id@ implies exists|i: int|
                        0 <= i < idx.len() && #[trigger] idx[i] == x by {
                        if x < k {
                            let i = choose|i: int| 0 <= i < prev_idx.len() && #[trigger] prev_idx[i] == x;
                            assert(idx[i] == x);
                        } else {
                            assert(idx[idx.len() - 1] == x);
                        }
                    }
                }
            } else {
                assert(r@ == prev);
                assert forall|x: int|
                    0 <= x < k + 1 && (#[trigger] self@[x]).0 == group_id@ implies exists|i: int|
                    0 <= i < idx.len() && #[trigger] idx[i] == x by {
                    let i = choose|i: int| 0 <= i < idx.len() && #[trigger] idx[i] == x;
                }
            }
            k = k + 1;
        }
        assert(self@.take(k as int) =~= self@);
        proof {
            assert forall|i: int| 0 <= i < ms.len() implies self.live(group_id@, #[trigger] ms[i])
                == Some(*r@[i]) by {
                self.lemma_live_at(idx[i]);
            }
            assert forall|a: int, b: int| 0 <= a < ms.len() && 0 <= b < ms.len() && a != b implies ms[a]
                != ms[b] by {
                let (lo, hi) = if a < b { (a, b) } else { (b, a) };
                assert(idx[lo] < idx[hi]);
                assert(self@[idx[a]].0 == self@[idx[b]].0);
            }
            assert forall|m: Seq<char>| #[trigger] self.is_live(group_id@, m) implies ms.contains(m) by {
                let x = choose|x: int|
                    0 <= x < self@.len() && (#[trigger] self@[x]).0 == group_id@ && self@[x].1 == m;
                let i = choose|i: int| 0 <= i < idx.len() && #[trigger] idx[i] == x;
                assert(ms[i] == m);
            }
        }
        r
    }
}

/// A group has an entry in a registry exactly when some member of it has a
/// live connection: a group whose connections have all gone holds no entry.
pub proof fn lemma_group_entry_iff_live<H>(reg: Registry<H>, g: Seq<char>)
    ensures
        reg.has_group(g) <==> exists|m: Seq<char>| #[trigger] reg.is_live(g, m),
{
    if reg.has_group(g) {
        let k = choose|k: int| 0 <= k < reg@.len() && (#[trigger] reg@[k]).0 == g;
        assert(reg.is_live(g, reg@[k].1));
    }
}

/// In a registry, a (group, member) key has at most one live connection: any
/// two entries under the same key are the same entry.
pub proof fn lemma_one_connection_per_key<H>(reg: Registry<H>, g: Seq<char>, m: Seq<char>, a: int, b: int)
    requires
        reg.wf(),
        0 <= a < reg@.len(),
        0 <= b < reg@.len(),
        reg@[a].0 == g && reg@[a].1 == m,
        reg@[b].0 == g && reg@[b].1 == m,
    ensures
        a == b,
{
}

} // verus!
