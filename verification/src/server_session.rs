//! The registry: the single owner of the routing table from live identity to
//! session handle. All mutation goes through its methods, one request at a
//! time, which is what makes the collision check of an identity claim atomic.
//!
//! A session handle is an opaque number chosen by the caller; the surrounding
//! program maps it to whatever carries a `Transfer` to that session.

use vstd::prelude::*;

use crate::common::ClientChange;
use crate::common::ClientChangeError;
use crate::common::Transfer;
use crate::common::TransferError;
use crate::common::DELIMITER;

verus! {

/// The identity a change request moves away from.
pub open spec fn change_old(c: ClientChange) -> Seq<u8> {
    match c {
        ClientChange::UpdateEmail(old_email, _) => old_email@,
    }
}

/// The identity a change request claims.
pub open spec fn change_new(c: ClientChange) -> Seq<u8> {
    match c {
        ClientChange::UpdateEmail(_, new_email) => new_email@,
    }
}

/// A claim of `new_id` is rejected exactly when `new_id` is already taken.
pub open spec fn rename_rejected(m: Map<Seq<u8>, u64>, new_id: Seq<u8>) -> bool {
    m.contains_key(new_id)
}

/// The table after a request to move `old_id` to `new_id`: unchanged when
/// `new_id` is taken, or when `old_id` is no longer present; otherwise the
/// entry moves, keeping its handle.
pub open spec fn spec_rename(m: Map<Seq<u8>, u64>, old_id: Seq<u8>, new_id: Seq<u8>) -> Map<
    Seq<u8>,
    u64,
> {
    if m.contains_key(new_id) {
        m
    } else if m.contains_key(old_id) {
        m.remove(old_id).insert(new_id, m[old_id])
    } else {
        m
    }
}

/// The table after a sequence of identity-change requests `(old, new)`,
/// served strictly in arrival order.
pub open spec fn spec_rename_all(
    m: Map<Seq<u8>, u64>,
    reqs: Seq<(Seq<u8>, Seq<u8>)>,
) -> Map<Seq<u8>, u64>
    decreases reqs.len(),
{
    if reqs.len() == 0 {
        m
    } else {
        spec_rename(spec_rename_all(m, reqs.drop_last()), reqs.last().0, reqs.last().1)
    }
}

/// Whether `key` is the identity some request moves away from.
pub open spec fn vacated_by(reqs: Seq<(Seq<u8>, Seq<u8>)>, key: Seq<u8>) -> bool {
    exists|i: int| 0 <= i < reqs.len() && reqs[i].0 == key
}

/// Whether `key` is the identity some request claims.
pub open spec fn claimed_by(reqs: Seq<(Seq<u8>, Seq<u8>)>, key: Seq<u8>) -> bool {
    exists|i: int| 0 <= i < reqs.len() && reqs[i].1 == key
}

spec fn unique_keys(s: Seq<(Vec<u8>, u64)>) -> bool {
    forall|i: int, j: int| 0 <= i < j < s.len() ==> s[i].0@ != s[j].0@
}

spec fn table_of(s: Seq<(Vec<u8>, u64)>) -> Map<Seq<u8>, u64>
    decreases s.len(),
{
    if s.len() == 0 {
        Map::empty()
    } else {
        table_of(s.drop_last()).insert(s.last().0@, s.last().1)
    }
}

proof fn lemma_table_contains(s: Seq<(Vec<u8>, u64)>, k: Seq<u8>)
    ensures
        table_of(s).contains_key(k) <==> exists|i: int| 0 <= i < s.len() && s[i].0@ == k,
    decreases s.len(),
{
    if s.len() > 0 {
        lemma_table_contains(s.drop_last(), k);
        if s.last().0@ == k {
            assert(s[s.len() - 1].0@ == k);
        } else if table_of(s).contains_key(k) {
            let i = choose|i: int| 0 <= i < s.drop_last().len() && s.drop_last()[i].0@ == k;
            assert(s[i].0@ == k);
        } else if exists|i: int| 0 <= i < s.len() && s[i].0@ == k {
            let i = choose|i: int| 0 <= i < s.len() && s[i].0@ == k;
            assert(s.drop_last()[i].0@ == k);
        }
    }
}

proof fn lemma_table_index(s: Seq<(Vec<u8>, u64)>, i: int)
    requires
        unique_keys(s),
        0 <= i < s.len(),
    ensures
        table_of(s).contains_key(s[i].0@),
        table_of(s)[s[i].0@] == s[i].1,
    decreases s.len(),
{
    if i < s.len() - 1 {
        lemma_table_index(s.drop_last(), i);
        assert(s[i].0@ != s.last().0@);
    }
}

proof fn lemma_table_push(s: Seq<(Vec<u8>, u64)>, p: (Vec<u8>, u64))
    ensures
        table_of(s.push(p)) == table_of(s).insert(p.0@, p.1),
{
    assert(s.push(p).drop_last() =~= s);
    assert(s.push(p).last() == p);
}

proof fn lemma_table_remove(s: Seq<(Vec<u8>, u64)>, i: int)
    requires
        unique_keys(s),
        0 <= i < s.len(),
    ensures
        table_of(s.remove(i)) == table_of(s).remove(s[i].0@),
    decreases s.len(),
{
    let k = s[i].0@;
    if i == s.len() - 1 {
        assert(s.remove(i) =~= s.drop_last());
        lemma_table_contains(s.drop_last(), k);
        assert(!table_of(s.drop_last()).contains_key(k));
        assert(table_of(s.drop_last()).insert(k, s.last().1).remove(k) =~= table_of(
            s.drop_last(),
        ));
    } else {
        lemma_table_remove(s.drop_last(), i);
        assert(s.remove(i).drop_last() =~= s.drop_last().remove(i));
        assert(s.remove(i).last() == s.last());
        assert(s[i].0@ != s.last().0@);
        assert(table_of(s.drop_last()).remove(k).insert(s.last().0@, s.last().1) =~= table_of(
            s.drop_last(),
        ).insert(s.last().0@, s.last().1).remove(k));
    }
}

proof fn lemma_table_len(s: Seq<(Vec<u8>, u64)>)
    requires
        unique_keys(s),
    ensures
        table_of(s).dom().finite(),
        table_of(s).len() == s.len(),
    decreases s.len(),
{
    if s.len() > 0 {
        lemma_table_len(s.drop_last());
        lemma_table_contains(s.drop_last(), s.last().0@);
        assert(!table_of(s.drop_last()).contains_key(s.last().0@));
    }
}

/// The registry state: the routing table from identity to session handle.
pub struct ServerSession {
    clients: Vec<(Vec<u8>, u64)>,
}

impl View for ServerSession {
    type V = Map<Seq<u8>, u64>;

    closed spec fn view(&self) -> Map<Seq<u8>, u64> {
        table_of(self.clients@)
    }
}

/// Relies on `ulid::Ulid::generate` and `ulid::Ulid::to_string`: a fresh
/// identifier for a newly accepted connection, rendered as 26 Crockford
/// base32 characters (ASCII digits and upper-case letters). The value depends
/// on the clock and on randomness, so nothing relates two calls.
#[verifier::external_body]
fn fresh_temp_id() -> (r: Vec<u8>)
    ensures
        r@.len() == 26,
        forall|i: int| 0 <= i < r@.len() ==> (48 <= #[trigger] r@[i] <= 57 || 65 <= r@[i] <= 90),
{
    ulid::Ulid::generate().to_string().into_bytes()
}

impl ServerSession {
    #[verifier::type_invariant]
    spec fn wf(self) -> bool {
        unique_keys(self.clients@)
    }

    /// A fresh registry with no live identities.
    pub fn new() -> (r: ServerSession)
        ensures
            r@ == Map::<Seq<u8>, u64>::empty(),
    {
        ServerSession { clients: Vec::new() }
    }

    fn find(&self, id: &Vec<u8>) -> (r: Option<usize>)
        ensures
            match r {
                Some(i) => i < self.clients@.len() && self.clients@[i as int].0@ == id@,
                None => forall|i: int| 0 <= i < self.clients@.len() ==> self.clients@[i].0@ != id@,
            },
    {
        let mut i: usize = 0;
        while i < self.clients.len()
            invariant
                i <= self.clients@.len(),
                forall|j: int| 0 <= j < i ==> self.clients@[j].0@ != id@,
            decreases self.clients@.len() - i,
        {
            if crate::common::bytes_eq(&self.clients[i].0, id) {
                return Some(i);
            }
            i += 1;
        }
        None
    }

    /// Whether an identity currently routes to a session.
    pub fn contains(&self, id: &Vec<u8>) -> (r: bool)
        ensures
            r == self@.contains_key(id@),
    {
        proof {
            use_type_invariant(self);
            lemma_table_contains(self.clients@, id@);
        }
        match self.find(id) {
            Some(_) => true,
            None => false,
        }
    }

    /// How many identities are live.
    pub fn len(&self) -> (r: usize)
        ensures
            r == self@.len(),
    {
        proof {
            use_type_invariant(self);
            lemma_table_len(self.clients@);
        }
        self.clients.len()
    }

    /// Inserts a new identity for the given session handle. Succeeds exactly
    /// when the identity is not yet taken; a refused insert leaves the table
    /// unchanged.
    pub fn register_with_id(&mut self, id: Vec<u8>, session: u64) -> (r: bool)
        ensures
            r == !old(self)@.contains_key(id@),
            r ==> final(self)@ == old(self)@.insert(id@, session),
            !r ==> final(self)@ == old(self)@,
    {
        proof {
            use_type_invariant(&*self);
            lemma_table_contains(self.clients@, id@);
        }
        match self.find(&id) {
            Some(_) => false,
            None => {
                proof {
                    lemma_table_push(self.clients@, (id, session));
                    assert(unique_keys(self.clients@.push((id, session))));
                }
                let mut clients: Vec<(Vec<u8>, u64)> = Vec::new();
                core::mem::swap(&mut clients, &mut self.clients);
                clients.push((id, session));
                self.clients = clients;
                true
            },
        }
    }

    /// Accepts a new connection: draws a fresh temporary identity and
    /// registers the session handle under it. Returns the temporary identity,
    /// or `None` in the unlikely event that the drawn identity is already
    /// taken, in which case the table is unchanged.
    pub fn register_connection(&mut self, session: u64) -> (r: Option<Vec<u8>>)
        ensures
            match r {
                Some(id) => !old(self)@.contains_key(id@) && final(self)@ == old(self)@.insert(
                    id@,
                    session,
                ) && id@.len() > 0 && !id@.contains(DELIMITER),
                None => final(self)@ == old(self)@,
            },
    {
        let id = fresh_temp_id();
        let mut copy: Vec<u8> = Vec::new();
        copy = crate::common::push_all(copy, &id);
        proof {
            assert(copy@ =~= id@);
            // every byte of the identifier is a digit or an upper-case
            // letter, so none is the delimiter
            assert(!id@.contains(DELIMITER)) by {
                if id@.contains(DELIMITER) {
                    let i = choose|i: int| 0 <= i < id@.len() && id@[i] == DELIMITER;
                }
            }
        }
        if self.register_with_id(id, session) {
            Some(copy)
        } else {
            None
        }
    }

    /// Serves one identity-change request: refuses with
    /// `NewEmailAlreadyExisted` when the claimed identity is already in the
    /// table (leaving it unchanged), and otherwise moves the old entry, if it
    /// is still present, to the new identity with the same handle.
    pub fn handle_client_change(&mut self, msg: ClientChange) -> (r: Result<(), ClientChangeError>)
        ensures
            final(self)@ == spec_rename(old(self)@, change_old(msg), change_new(msg)),
            r matches Err(e) <==> rename_rejected(old(self)@, change_new(msg)),
            r matches Err(e) ==> e == ClientChangeError::NewEmailAlreadyExisted,
    {
        let ClientChange::UpdateEmail(old_email, new_email) = msg;
        proof {
            use_type_invariant(&*self);
            lemma_table_contains(self.clients@, new_email@);
            lemma_table_contains(self.clients@, old_email@);
        }
        if let Some(_) = self.find(&new_email) {
            return Err(ClientChangeError::NewEmailAlreadyExisted);
        }
        if let Some(i) = self.find(&old_email) {
            proof {
                lemma_table_index(self.clients@, i as int);
                lemma_table_remove(self.clients@, i as int);
            }
            let mut clients: Vec<(Vec<u8>, u64)> = Vec::new();
            core::mem::swap(&mut clients, &mut self.clients);
            let entry = clients.remove(i);
            proof {
                lemma_table_contains(clients@, new_email@);
                lemma_table_push(clients@, (new_email, entry.1));
                assert(unique_keys(clients@.push((new_email, entry.1))));
            }
            clients.push((new_email, entry.1));
            self.clients = clients;
        }
        Ok(())
    }

    /// Routes one `Transfer`: returns the handle of the destination session,
    /// or `DestinationClientOffline` when no live identity matches.
    pub fn handle_transfer(&self, msg: &Transfer) -> (r: Result<u64, TransferError>)
        ensures
            self@.contains_key(msg.to@) ==> r == Ok::<u64, TransferError>(self@[msg.to@]),
            !self@.contains_key(msg.to@) ==> r == Err::<u64, TransferError>(
                TransferError::DestinationClientOffline,
            ),
    {
        proof {
            use_type_invariant(self);
            lemma_table_contains(self.clients@, msg.to@);
        }
        match self.find(&msg.to) {
            Some(i) => {
                proof {
                    lemma_table_index(self.clients@, i as int);
                }
                Ok(self.clients[i].1)
            },
            None => Err(TransferError::DestinationClientOffline),
        }
    }

    /// Removes an identity when its session goes away. Removing an identity
    /// that is not present is a no-op and never errors.
    pub fn deregister(&mut self, id: &Vec<u8>)
        ensures
            final(self)@ == old(self)@.remove(id@),
            !old(self)@.contains_key(id@) ==> final(self)@ == old(self)@,
    {
        proof {
            use_type_invariant(&*self);
            lemma_table_contains(self.clients@, id@);
        }
        match self.find(id) {
            Some(i) => {
                proof {
                    lemma_table_remove(self.clients@, i as int);
                }
                let mut clients: Vec<(Vec<u8>, u64)> = Vec::new();
                core::mem::swap(&mut clients, &mut self.clients);
                clients.remove(i);
                self.clients = clients;
            },
            None => {
                proof {
                    assert(self@.remove(id@) =~= self@);
                }
            },
        }
    }

    /// Shuts the registry down: empties the table and hands back every
    /// registered handle, so the caller can stop each session.
    pub fn handle_stop(&mut self) -> (r: Vec<u64>)
        ensures
            final(self)@ == Map::<Seq<u8>, u64>::empty(),
            r@.len() == old(self)@.len(),
            forall|k: Seq<u8>| old(self)@.contains_key(k) ==> r@.contains(old(self)@[k]),
    {
        proof {
            use_type_invariant(&*self);
            lemma_table_len(self.clients@);
        }
        let mut handles: Vec<u64> = Vec::new();
        let mut i: usize = 0;
        while i < self.clients.len()
            invariant
                i <= self.clients@.len(),
                handles@.len() == i,
                forall|j: int| 0 <= j < i ==> handles@[j] == self.clients@[j].1,
            decreases self.clients@.len() - i,
        {
            handles.push(self.clients[i].1);
            i += 1;
        }
        proof {
            use_type_invariant(&*self);
            let s = self.clients@;
            assert forall|k: Seq<u8>| table_of(s).contains_key(k) implies handles@.contains(
                table_of(s)[k],
            ) by {
                lemma_table_contains(s, k);
                let j = choose|j: int| 0 <= j < s.len() && s[j].0@ == k;
                lemma_table_index(s, j);
                assert(handles@[j] == table_of(s)[k]);
            }
        }
        self.clients = Vec::new();
        proof {
            assert(self@ =~= Map::<Seq<u8>, u64>::empty());
        }
        handles
    }
}

/// Law: two claims of distinct new identities, serialized by the registry in
/// either arrival order, both succeed, and afterwards the table routes each
/// new identity to the handle its claimant had — no update is lost.
pub proof fn lemma_concurrent_claims(
    m: Map<Seq<u8>, u64>,
    o1: Seq<u8>,
    n1: Seq<u8>,
    o2: Seq<u8>,
    n2: Seq<u8>,
)
    requires
        m.contains_key(o1),
        m.contains_key(o2),
        o1 != o2,
        !m.contains_key(n1),
        !m.contains_key(n2),
        n1 != n2,
    ensures
        !rename_rejected(m, n1),
        !rename_rejected(spec_rename(m, o1, n1), n2),
        spec_rename(spec_rename(m, o1, n1), o2, n2).contains_key(n1),
        spec_rename(spec_rename(m, o1, n1), o2, n2).contains_key(n2),
        spec_rename(spec_rename(m, o1, n1), o2, n2)[n1] == m[o1],
        spec_rename(spec_rename(m, o1, n1), o2, n2)[n2] == m[o2],
{
}

/// Law: any number of claims served in arrival order, each moving a distinct
/// live identity to a distinct fresh one, all succeed; afterwards the table
/// routes every claimed identity to its claimant's handle, holds none of the
/// vacated ones, leaves every uninvolved entry untouched, and has exactly as
/// many entries as before — no entry lost or duplicated.
#[verifier::rlimit(50)]
pub proof fn lemma_all_claims_succeed(m: Map<Seq<u8>, u64>, reqs: Seq<(Seq<u8>, Seq<u8>)>)
    requires
        m.dom().finite(),
        forall|i: int| 0 <= i < reqs.len() ==> m.contains_key(#[trigger] reqs[i].0),
        forall|i: int| 0 <= i < reqs.len() ==> !m.contains_key(#[trigger] reqs[i].1),
        forall|i: int, j: int|
            #![trigger reqs[i], reqs[j]]
            0 <= i < j < reqs.len() ==> reqs[i].0 != reqs[j].0 && reqs[i].1 != reqs[j].1,
    ensures
        forall|k: int|
            0 <= k < reqs.len() ==> !rename_rejected(
                spec_rename_all(m, reqs.take(k)),
                #[trigger] reqs[k].1,
            ),
        forall|k: int|
            0 <= k < reqs.len() ==> spec_rename_all(m, reqs).contains_key(#[trigger] reqs[k].1)
                && spec_rename_all(m, reqs)[reqs[k].1] == m[reqs[k].0],
        forall|k: int|
            0 <= k < reqs.len() ==> !spec_rename_all(m, reqs).contains_key(#[trigger] reqs[k].0),
        forall|key: Seq<u8>|
            #[trigger] spec_rename_all(m, reqs).contains_key(key) <==> ((m.contains_key(key)
                && !vacated_by(reqs, key)) || claimed_by(reqs, key)),
        forall|key: Seq<u8>|
            m.contains_key(key) && !vacated_by(reqs, key) ==> #[trigger] spec_rename_all(
                m,
                reqs,
            )[key] == m[key],
        spec_rename_all(m, reqs).dom().finite(),
        spec_rename_all(m, reqs).len() == m.len(),
    decreases reqs.len(),
{
    if reqs.len() == 0 {
        assert forall|key: Seq<u8>| !vacated_by(reqs, key) && !claimed_by(reqs, key) by {
            if vacated_by(reqs, key) {
                let i = choose|i: int| 0 <= i < reqs.len() && reqs[i].0 == key;
            }
            if claimed_by(reqs, key) {
                let i = choose|i: int| 0 <= i < reqs.len() && reqs[i].1 == key;
            }
        }
    } else {
        let pre = reqs.drop_last();
        let last = reqs.len() - 1;
        let o = reqs.last().0;
        let n = reqs.last().1;
        assert(forall|i: int| 0 <= i < pre.len() ==> pre[i] == reqs[i]);
        lemma_all_claims_succeed(m, pre);
        let f1 = spec_rename_all(m, pre);
        let f = spec_rename_all(m, reqs);

        // no claimed identity was live to begin with
        assert forall|key: Seq<u8>| m.contains_key(key) implies !claimed_by(reqs, key) by {
            if claimed_by(reqs, key) {
                let i = choose|i: int| 0 <= i < reqs.len() && reqs[i].1 == key;
            }
        }
        // a request of `reqs` is one of `pre` or the last one
        assert forall|key: Seq<u8>| vacated_by(reqs, key) <==> (vacated_by(pre, key) || key
            == o) by {
            if vacated_by(reqs, key) {
                let i = choose|i: int| 0 <= i < reqs.len() && reqs[i].0 == key;
                if i < last {
                    assert(pre[i].0 == key);
                }
            }
            if vacated_by(pre, key) {
                let i = choose|i: int| 0 <= i < pre.len() && pre[i].0 == key;
                assert(reqs[i].0 == key);
            }
            if key == o {
                assert(reqs[last].0 == key);
            }
        }
        assert forall|key: Seq<u8>| claimed_by(reqs, key) <==> (claimed_by(pre, key) || key
            == n) by {
            if claimed_by(reqs, key) {
                let i = choose|i: int| 0 <= i < reqs.len() && reqs[i].1 == key;
                if i < last {
                    assert(pre[i].1 == key);
                }
            }
            if claimed_by(pre, key) {
                let i = choose|i: int| 0 <= i < pre.len() && pre[i].1 == key;
                assert(reqs[i].1 == key);
            }
            if key == n {
                assert(reqs[last].1 == key);
            }
        }

        // the last claim is not rejected: its new identity is neither a live
        // leftover nor claimed earlier
        assert(!claimed_by(pre, n)) by {
            if claimed_by(pre, n) {
                let i = choose|i: int| 0 <= i < pre.len() && pre[i].1 == n;
                assert(reqs[i].1 == reqs[last].1);
            }
        }
        assert(!f1.contains_key(n));
        // and its old identity is still live, untouched, with its handle
        assert(!vacated_by(pre, o)) by {
            if vacated_by(pre, o) {
                let i = choose|i: int| 0 <= i < pre.len() && pre[i].0 == o;
                assert(reqs[i].0 == reqs[last].0);
            }
        }
        assert(f1.contains_key(o) && f1[o] == m[o]);
        assert(f == f1.remove(o).insert(n, m[o]));

        // each step in turn was accepted
        assert forall|k: int| 0 <= k < reqs.len() implies !rename_rejected(
            spec_rename_all(m, reqs.take(k)),
            reqs[k].1,
        ) by {
            if k < last {
                assert(reqs.take(k) =~= pre.take(k));
            } else {
                assert(reqs.take(k) =~= pre);
            }
        }

        // what the final table holds
        assert forall|key: Seq<u8>| f.contains_key(key) <==> ((m.contains_key(key) && !vacated_by(
            reqs,
            key,
        )) || claimed_by(reqs, key)) by {
            assert(f1.contains_key(key) <==> ((m.contains_key(key) && !vacated_by(pre, key))
                || claimed_by(pre, key)));
        }
        assert forall|key: Seq<u8>| m.contains_key(key) && !vacated_by(reqs, key) implies f[key]
            == m[key] by {
            assert(f1[key] == m[key]);
        }
        assert forall|k: int| 0 <= k < reqs.len() implies f.contains_key(reqs[k].1) && f[reqs[k].1]
            == m[reqs[k].0] by {
            if k < last {
                assert(f1.contains_key(reqs[k].1) && f1[reqs[k].1] == m[reqs[k].0]);
                assert(reqs[k].1 != n);
                assert(reqs[k].1 != o);
            }
        }
        assert forall|k: int| 0 <= k < reqs.len() implies !f.contains_key(reqs[k].0) by {
            assert(vacated_by(reqs, reqs[k].0)) by {
                assert(0 <= k < reqs.len() && reqs[k].0 == reqs[k].0);
            }
        }

        // one entry left, one entry came: the count is unchanged
        assert(f.dom() =~= f1.dom().remove(o).insert(n));
        vstd::set::axiom_set_remove_len(f1.dom(), o);
        vstd::set::axiom_set_insert_len(f1.dom().remove(o), n);
    }
}

/// Law: of two sequential claims of the same identity by different sessions,
/// the second is rejected with the table unchanged, and the first claimant's
/// entry keeps its handle.
pub proof fn lemma_second_claim_rejected(m: Map<Seq<u8>, u64>, o1: Seq<u8>, o2: Seq<u8>, n: Seq<u8>)
    requires
        m.contains_key(o1),
        m.contains_key(o2),
        o1 != o2,
        !m.contains_key(n),
    ensures
        !rename_rejected(m, n),
        rename_rejected(spec_rename(m, o1, n), n),
        spec_rename(spec_rename(m, o1, n), o2, n) == spec_rename(m, o1, n),
        spec_rename(m, o1, n)[n] == m[o1],
{
}

} // verus!
