//! The client registry: a keyed store of the last-known state per client
//! identifier. Mathematically it is a map from identifier (character
//! sequence) to the latest snapshot written for it: last writer wins, and
//! entries are never removed.
//!
//! The registry itself is a plain value; the server holds the one shared
//! instance behind a mutual-exclusion lock and keeps each critical section
//! to exactly one `get` or `upsert` call, never spanning stream I/O.

use vstd::prelude::*;
use vstd::map::*;

use crate::messages::ClientState;
use crate::messages::ClientStateView;

verus! {

/// Keyed store of the last-known state per client identifier.
pub struct Registry {
    entries: Vec<(String, ClientState)>,
}

impl Registry {
    /// No two stored entries share an identifier.
    pub closed spec fn wf(self) -> bool {
        forall|i: int, j: int|
            0 <= i < j < self.entries@.len() ==> self.entries@[i].0@ != self.entries@[j].0@
    }

    /// The registry as a map: each stored pair is one binding.
    pub closed spec fn as_map(self) -> Map<Seq<char>, ClientStateView> {
        map_of_entries(self.entries@)
    }

    pub fn new() -> (r: Registry)
        ensures
            r.wf(),
            r@ == Map::<Seq<char>, ClientStateView>::empty(),
    {
        Registry { entries: Vec::new() }
    }

    /// Create or overwrite the binding for `id` with the snapshot `state`.
    pub fn upsert(&mut self, id: String, state: ClientState)
        requires
            old(self).wf(),
        ensures
            final(self).wf(),
            final(self)@ == old(self)@.insert(id@, state@),
    {
        let ghost entries0 = self.entries@;
        let mut i: usize = 0;
        while i < self.entries.len()
            invariant
                self.entries@ == entries0,
                old(self).entries@ == entries0,
                old(self).wf(),
                forall|j: int| 0 <= j < i ==> entries0[j].0@ != id@,
                i <= entries0.len(),
            decreases entries0.len() - i,
        {
            if string_eq(&self.entries[i].0, &id) {
                let ghost gid = id;
                let ghost gstate = state;
                self.entries[i] = (id, state);
                proof {
                    assert(self.entries@ == entries0.update(i as int, (gid, gstate)));
                    lemma_map_of_update(entries0, i as int, gid, gstate);
                    assert(self@ =~= old(self)@.insert(gid@, gstate@));
                    assert forall|a: int, b: int|
                        0 <= a < b < self.entries@.len() implies self.entries@[a].0@
                        != self.entries@[b].0@ by {
                        assert(entries0[i as int].0@ == gid@);
                        assert(entries0[a].0@ != entries0[b].0@);
                    }
                }
                return ;
            }
            i += 1;
        }
        let ghost gid = id;
        let ghost gstate = state;
        self.entries.push((id, state));
        proof {
            assert(self.entries@.drop_last() =~= entries0);
            assert(self.entries@.last() == (gid, gstate));
            assert(self@ == map_of_entries(entries0).insert(gid@, gstate@));
            assert forall|a: int, b: int|
                0 <= a < b < self.entries@.len() implies self.entries@[a].0@
                != self.entries@[b].0@ by {
                if b < entries0.len() {
                    assert(entries0[a].0@ != entries0[b].0@);
                } else {
                    assert(entries0[a].0@ != gid@);
                }
            }
        }
    }

    /// A snapshot of the binding for `id`, or `None` when `id` was never
    /// registered.
    pub fn get(&self, id: &str) -> (r: Option<ClientState>)
        ensures
            match r {
                Some(v) => self@.contains_key(id@) && v@ == self@[id@],
                None => !self@.contains_key(id@),
            },
    {
        let ghost entries0 = self.entries@;
        let mut i: usize = self.entries.len();
        while i > 0
            invariant
                i <= entries0.len(),
                self.entries@ == entries0,
                forall|j: int| i <= j < entries0.len() ==> entries0[j].0@ != id@,
            decreases i,
        {
            i -= 1;
            if str_eq(self.entries[i].0.as_str(), id) {
                proof {
                    lemma_map_of_found(entries0, i as int, id@);
                }
                let stored = &self.entries[i].1;
                return Some(
                    ClientState {
                        last_message: stored.last_message.clone(),
                        current_position: stored.current_position,
                    },
                );
            }
        }
        proof {
            lemma_map_of_absent(entries0, id@);
        }
        None
    }

    /// The number of identifiers the registry currently tracks.
    pub fn len(&self) -> (n: usize)
        requires
            self.wf(),
        ensures
            n == self@.dom().len(),
    {
        proof {
            lemma_map_of_len(self.entries@);
        }
        self.entries.len()
    }
}

impl View for Registry {
    type V = Map<Seq<char>, ClientStateView>;

    open spec fn view(&self) -> Map<Seq<char>, ClientStateView> {
        self.as_map()
    }
}

/// The map induced by a sequence of pairs, later pairs overwriting earlier
/// ones.
pub closed spec fn map_of_entries(s: Seq<(String, ClientState)>) -> Map<Seq<char>, ClientStateView>
    decreases s.len(),
{
    if s.len() == 0 {
        Map::empty()
    } else {
        map_of_entries(s.drop_last()).insert(s.last().0@, s.last().1@)
    }
}

/// Equality of two strings, with the character sequences as its meaning.
fn string_eq(a: &String, b: &String) -> (r: bool)
    ensures
        r == (a@ == b@),
{
    a.eq(b)
}

/// Equality of two string slices, with the character sequences as its
/// meaning.
fn str_eq(a: &str, b: &str) -> (r: bool)
    ensures
        r == (a@ == b@),
{
    let len_a = a.unicode_len();
    if len_a != b.unicode_len() {
        proof {
            assert(a@.len() != b@.len());
        }
        return false;
    }
    let mut i: usize = 0;
    while i < len_a
        invariant
            i <= len_a,
            len_a == a@.len(),
            len_a == b@.len(),
            forall|j: int| 0 <= j < i ==> a@[j] == b@[j],
        decreases len_a - i,
    {
        if a.get_char(i) != b.get_char(i) {
            return false;
        }
        i += 1;
    }
    proof {
        assert(a@ =~= b@);
    }
    true
}

proof fn lemma_map_of_update(s: Seq<(String, ClientState)>, i: int, key: String, v: ClientState)
    requires
        0 <= i < s.len(),
        s[i].0@ == key@,
        forall|a: int, b: int| 0 <= a < b < s.len() ==> s[a].0@ != s[b].0@,
    ensures
        map_of_entries(s.update(i, (key, v))) =~= map_of_entries(s).insert(key@, v@),
    decreases s.len(),
{
    let t = s.update(i, (key, v));
    if i == s.len() - 1 {
        assert(t.drop_last() =~= s.drop_last());
        assert(t.last() == (key, v));
    } else {
        assert(t.drop_last() =~= s.drop_last().update(i, (key, v)));
        assert(t.last() == s.last());
        assert(s.drop_last()[i] == s[i]);
        lemma_map_of_update(s.drop_last(), i, key, v);
        assert(s[i].0@ != s[s.len() - 1].0@);
        assert(map_of_entries(t) =~= map_of_entries(s.drop_last()).insert(key@, v@).insert(
            s.last().0@,
            s.last().1@,
        ));
    }
}

proof fn lemma_map_of_found(s: Seq<(String, ClientState)>, i: int, k: Seq<char>)
    requires
        0 <= i < s.len(),
        s[i].0@ == k,
        forall|j: int| i < j < s.len() ==> s[j].0@ != k,
    ensures
        map_of_entries(s).contains_key(k),
        map_of_entries(s)[k] == s[i].1@,
    decreases s.len(),
{
    if i == s.len() - 1 {
    } else {
        assert(s.drop_last()[i] == s[i]);
        lemma_map_of_found(s.drop_last(), i, k);
        assert(s.last().0@ != k);
    }
}

proof fn lemma_map_of_absent(s: Seq<(String, ClientState)>, k: Seq<char>)
    requires
        forall|j: int| 0 <= j < s.len() ==> s[j].0@ != k,
    ensures
        !map_of_entries(s).contains_key(k),
    decreases s.len(),
{
    if s.len() > 0 {
        lemma_map_of_absent(s.drop_last(), k);
    }
}

proof fn lemma_map_of_len(s: Seq<(String, ClientState)>)
    requires
        forall|a: int, b: int| 0 <= a < b < s.len() ==> s[a].0@ != s[b].0@,
    ensures
        map_of_entries(s).dom().finite(),
        map_of_entries(s).dom().len() == s.len(),
    decreases s.len(),
{
    if s.len() > 0 {
        lemma_map_of_len(s.drop_last());
        assert(forall|j: int|
            0 <= j < s.len() - 1 ==> s.drop_last()[j].0@ == s[j].0@ && s[j].0@ != s.last().0@);
        lemma_map_of_absent(s.drop_last(), s.last().0@);
        assert(!map_of_entries(s.drop_last()).dom().contains(s.last().0@));
        assert(map_of_entries(s).dom() =~= map_of_entries(s.drop_last()).dom().insert(
            s.last().0@,
        ));
        vstd::set::axiom_set_insert_len(map_of_entries(s.drop_last()).dom(), s.last().0@);
    }
}

/// Law: the registry is last-writer-wins per identifier. Writing `a` and
/// then `b` under the same identifier leaves exactly the binding `b`, the
/// same map as writing `b` alone; a read of that identifier then yields `b`.
pub proof fn lemma_last_write_wins(
    m: Map<Seq<char>, ClientStateView>,
    id: Seq<char>,
    a: ClientStateView,
    b: ClientStateView,
)
    ensures
        m.insert(id, a).insert(id, b) == m.insert(id, b),
        m.insert(id, a).insert(id, b)[id] == b,
{
    assert(m.insert(id, a).insert(id, b) =~= m.insert(id, b));
}

} // verus!
