use vstd::prelude::*;
use vstd::utf8::encode_utf8;
use crate::order::{bytes_lt, bytes_less, lemma_bytes_lt_total, lemma_bytes_lt_transitive, lemma_bytes_lt_irreflexive};

verus! {

/// One running worker: the relay it serves and what the runtime hands back
/// for it (its task handle and the sending end of its publish channel).
pub struct ActiveEntry<H> {
    pub relay_id: String,
    pub handle: H,
}

/// The table of running workers, keyed by relay id, at most one entry per id.
pub struct ActiveTable<H> {
    entries: Vec<ActiveEntry<H>>,
}

/// Why a request could not be handed to a worker.
#[derive(PartialEq, Eq, Structural, Clone, Copy, Debug)]
pub enum RouteError {
    /// No running worker matches the request.
    NotFound,
    /// The worker's channel is closed: it has already ended.
    ChannelClosed,
    /// The request asks for a delivery level other than 0, 1 or 2.
    InvalidQos,
}

/// The UTF-8 bytes of an id, the key of the default-selection order.
pub open spec fn id_key(id: Seq<char>) -> Seq<u8> {
    encode_utf8(id)
}

/// Index of the entry with the smallest id, the first such entry if two
/// keys were ever equal: no key sorts before it, and every earlier key
/// sorts strictly after it.
pub open spec fn is_default_index(ids: Seq<Seq<char>>, m: int) -> bool {
    &&& 0 <= m < ids.len()
    &&& forall|j: int| 0 <= j < ids.len() ==> !bytes_lt(id_key(ids[j]), id_key(ids[m]))
    &&& forall|j: int| 0 <= j < m ==> bytes_lt(id_key(ids[m]), id_key(ids[j]))
}

/// The relay ids that a supervisor tick must start workers for: those of
/// `registry` with no entry in `present`, once each, in registry order.
pub open spec fn ids_to_spawn(registry: Seq<Seq<char>>, present: Seq<Seq<char>>) -> Seq<Seq<char>>
    decreases registry.len(),
{
    if registry.len() == 0 {
        Seq::empty()
    } else {
        let prev = ids_to_spawn(registry.drop_last(), present);
        let x = registry.last();
        if present.contains(x) || prev.contains(x) {
            prev
        } else {
            prev.push(x)
        }
    }
}

/// The entries of `e` among its first `n` whose task is not finished.
pub open spec fn unfinished<H>(e: Seq<ActiveEntry<H>>, finished: Seq<bool>, n: int) -> Seq<ActiveEntry<H>>
    decreases n,
{
    if n <= 0 {
        Seq::empty()
    } else if finished[n - 1] {
        unfinished(e, finished, n - 1)
    } else {
        unfinished(e, finished, n - 1).push(e[n - 1])
    }
}

/// The relay ids of a sequence of entries.
pub open spec fn ids_of<H>(e: Seq<ActiveEntry<H>>) -> Seq<Seq<char>> {
    e.map_values(|x: ActiveEntry<H>| x.relay_id@)
}

/// The characters of each string.
pub open spec fn strings_view(v: Seq<String>) -> Seq<Seq<char>> {
    v.map_values(|s: String| s@)
}

impl<H> ActiveTable<H> {
    /// The entries, in table order.
    pub closed spec fn entries(&self) -> Seq<ActiveEntry<H>> {
        self.entries@
    }

    /// The relay ids of the table, in table order.
    pub open spec fn ids(&self) -> Seq<Seq<char>> {
        ids_of(self.entries())
    }

    /// At most one entry per relay id.
    pub open spec fn wf(&self) -> bool {
        self.ids().no_duplicates()
    }

    /// An empty table.
    pub fn new() -> (r: Self)
        ensures
            r.entries() == Seq::<ActiveEntry<H>>::empty(),
            r.wf(),
    {
        ActiveTable { entries: Vec::new() }
    }

    /// The number of entries.
    pub fn len(&self) -> (r: usize)
        ensures
            r == self.entries().len(),
    {
        self.entries.len()
    }

    /// The entry at `i`.
    pub fn entry(&self, i: usize) -> (r: &ActiveEntry<H>)
        requires
            i < self.entries().len(),
        ensures
            *r == self.entries()[i as int],
    {
        &self.entries[i]
    }

    /// Where the entry of relay `id` stands, if it has one.
    pub fn position(&self, id: &String) -> (r: Option<usize>)
        ensures
            r matches Some(i) ==> i < self.ids().len() && self.ids()[i as int] == id@,
            r is None <==> !self.ids().contains(id@),
    {
        let mut i: usize = 0;
        while i < self.entries.len()
            invariant
                i <= self.entries@.len(),
                forall|j: int| 0 <= j < i ==> self.ids()[j] != id@,
            decreases self.entries@.len() - i,
        {
            if self.entries[i].relay_id == *id {
                assert(self.ids()[i as int] == id@);
                return Some(i);
            }
            i = i + 1;
        }
        None
    }

    /// Whether relay `id` has an entry.
    pub fn contains(&self, id: &String) -> (r: bool)
        ensures
            r == self.ids().contains(id@),
    {
        self.position(id).is_some()
    }

    /// Records a newly started worker for a relay that has none.
    pub fn insert(&mut self, relay_id: String, handle: H)
        requires
            old(self).wf(),
            !old(self).ids().contains(relay_id@),
        ensures
            final(self).wf(),
            final(self).entries() == old(self).entries().push(ActiveEntry { relay_id, handle }),
    {
        let ghost id = relay_id@;
        self.entries.push(ActiveEntry { relay_id, handle });
        proof {
            let old_ids = ids_of(old(self).entries());
            assert(self.ids() =~= old_ids.push(id));
        }
    }
    /// The entry that a request naming no relay goes to: the one whose id
    /// sorts first by its bytes. `None` when the table is empty.
    pub fn default_index(&self) -> (r: Option<usize>)
        ensures
            r is None <==> self.entries().len() == 0,
            r matches Some(m) ==> is_default_index(self.ids(), m as int),
    {
        if self.entries.len() == 0 {
            return None;
        }
        let mut best: usize = 0;
        let mut i: usize = 1;
        proof {
            lemma_bytes_lt_irreflexive(id_key(self.ids()[0]));
        }
        while i < self.entries.len()
            invariant
                self.entries@.len() > 0,
                best < i <= self.entries@.len(),
                forall|j: int| 0 <= j < i ==> !bytes_lt(id_key(#[trigger] self.ids()[j]), id_key(self.ids()[best as int])),
                forall|j: int| 0 <= j < best ==> bytes_lt(id_key(self.ids()[best as int]), id_key(#[trigger] self.ids()[j])),
            decreases self.entries@.len() - i,
        {
            let ghost ids = self.ids();
            let ghost kb = id_key(ids[best as int]);
            let ghost ki = id_key(ids[i as int]);
            let less = bytes_less(self.entries[i].relay_id.as_str().as_bytes(), self.entries[best].relay_id.as_str().as_bytes());
            if less {
                proof {
                    assert forall|j: int| 0 <= j < i implies bytes_lt(ki, id_key(#[trigger] ids[j])) by {
                        let kj = id_key(ids[j]);
                        lemma_bytes_lt_total(kj, kb);
                        if kj != kb {
                            lemma_bytes_lt_transitive(ki, kb, kj);
                        }
                    }
                    assert forall|j: int| 0 <= j < i + 1 implies !bytes_lt(id_key(#[trigger] ids[j]), ki) by {
                        if j == i {
                            lemma_bytes_lt_irreflexive(ki);
                        } else {
                            if bytes_lt(id_key(ids[j]), ki) {
                                lemma_bytes_lt_transitive(id_key(ids[j]), ki, id_key(ids[j]));
                                lemma_bytes_lt_irreflexive(id_key(ids[j]));
                            }
                        }
                    }
                }
                best = i;
            }
            i = i + 1;
        }
        Some(best)
    }

    /// Resolves the relay a publish request goes to: the named one, or the
    /// default entry when none is named.
    pub fn resolve(&self, requested: &Option<String>) -> (r: Result<usize, RouteError>)
        ensures
            requested matches Some(id) ==> (match r {
                Ok(i) => i < self.ids().len() && self.ids()[i as int] == id@,
                Err(e) => e == RouteError::NotFound && !self.ids().contains(id@),
            }),
            requested is None ==> (match r {
                Ok(m) => is_default_index(self.ids(), m as int),
                Err(e) => e == RouteError::NotFound && self.entries().len() == 0,
            }),
    {
        let found = match requested {
            Some(id) => self.position(id),
            None => self.default_index(),
        };
        match found {
            Some(i) => Ok(i),
            None => Err(RouteError::NotFound),
        }
    }
    /// Drops the entries whose task has finished: `finished[i]` tells it of
    /// the entry at `i`. The others stay, in their order.
    pub fn reap_finished(&mut self, finished: &Vec<bool>)
        requires
            old(self).wf(),
            finished@.len() == old(self).entries().len(),
        ensures
            final(self).wf(),
            final(self).entries() == unfinished(old(self).entries(), finished@, finished@.len() as int),
    {
        let ghost e0 = self.entries@;
        let n = finished.len();
        let mut k: usize = 0;
        let mut i: usize = 0;
        proof {
            assert(e0.subrange(0, n as int) =~= e0);
        }
        while k < n
            invariant
                n == finished@.len() == e0.len(),
                ids_of(e0).no_duplicates(),
                i <= k <= n,
                unfinished(e0, finished@, k as int).len() == i,
                self.entries@ =~= unfinished(e0, finished@, k as int) + e0.subrange(k as int, n as int),
            decreases n - k,
        {
            proof {
                assert(e0.subrange(k as int, n as int) =~= seq![e0[k as int]] + e0.subrange(k + 1, n as int));
            }
            if finished[k] {
                self.entries.remove(i);
            } else {
                i = i + 1;
            }
            k = k + 1;
        }
        proof {
            lemma_unfinished_ids(e0, finished@, n as int);
        }
    }

    /// One supervisor tick: starts a worker, through `spawn`, for each relay
    /// of `registry` that has no entry, then drops the entries that were
    /// there before and whose task has finished (`finished[i]` tells it of
    /// the entry at `i`). A relay whose worker finished is thus absent
    /// until the next tick starts a new one. The unfinished entries stay as
    /// they were, in order, ahead of the new ones.
    pub fn tick<F: Fn(&String) -> H>(&mut self, registry: &Vec<String>, finished: &Vec<bool>, spawn: F)
        requires
            old(self).wf(),
            finished@.len() == old(self).entries().len(),
            forall|id: &String| spawn.requires((id,)),
        ensures
            final(self).wf(),
            final(self).ids() == ids_of(unfinished(old(self).entries(), finished@, finished@.len() as int))
                + ids_to_spawn(strings_view(registry@), old(self).ids()),
            final(self).entries().len() >= unfinished(old(self).entries(), finished@, finished@.len() as int).len(),
            final(self).entries().subrange(0, unfinished(old(self).entries(), finished@, finished@.len() as int).len() as int)
                == unfinished(old(self).entries(), finished@, finished@.len() as int),
            forall|j: int| unfinished(old(self).entries(), finished@, finished@.len() as int).len() <= j < final(self).entries().len() ==>
                spawn.ensures((&#[trigger] final(self).entries()[j].relay_id,), final(self).entries()[j].handle),
            forall|x: Seq<char>| strings_view(registry@).contains(x) && !old(self).ids().contains(x)
                ==> #[trigger] final(self).ids().contains(x),
            forall|j: int| 0 <= j < finished@.len() && finished@[j] ==> !final(self).ids().contains(#[trigger] old(self).ids()[j]),
            forall|x: Seq<char>| #[trigger] final(self).ids().contains(x) ==>
                old(self).ids().contains(x) || strings_view(registry@).contains(x),
    {
        let ghost e0 = self.entries@;
        let ghost ids0 = self.ids();
        let ghost reg = strings_view(registry@);
        let n = finished.len();
        self.spawn_missing(registry, spawn);
        let ghost e1 = self.entries@;
        let mut flags: Vec<bool> = Vec::new();
        let mut i: usize = 0;
        while i < self.entries.len()
            invariant
                n == finished@.len(),
                i <= self.entries@.len(),
                flags@.len() == i,
                forall|j: int| 0 <= j < i ==> flags@[j] == (j < n && finished@[j]),
            decreases self.entries@.len() - i,
        {
            if i < n {
                flags.push(finished[i]);
            } else {
                flags.push(false);
            }
            i = i + 1;
        }
        self.reap_finished(&flags);
        proof {
            let m = e1.len() as int;
            let u = unfinished(e0, finished@, n as int);
            let sp = ids_to_spawn(reg, ids0);
            assert forall|j: int| 0 <= j < n implies e1[j] == e0[j] && flags@[j] == finished@[j] by {
                assert(e1.subrange(0, n as int)[j] == e1[j]);
            }
            lemma_unfinished_prefix(e1, flags@, e0, finished@, n as int);
            lemma_unfinished_tail(e1, flags@, n as int, m);
            assert(self.entries@ == u + e1.subrange(n as int, m));
            assert(ids_of(e1) == ids0 + sp);
            assert(ids0.len() == n);
            assert(ids_of(e1).len() == m);
            assert forall|k: int| 0 <= k < sp.len() implies #[trigger] ids_of(e1).subrange(n as int, m)[k] == sp[k] by {
                assert((ids0 + sp)[k + n] == sp[k]);
            }
            assert(ids_of(e1).subrange(n as int, m) =~= sp);
            assert(ids_of(u + e1.subrange(n as int, m)) =~= ids_of(u) + ids_of(e1).subrange(n as int, m));
            assert(self.entries@.subrange(0, u.len() as int) =~= u);
            assert forall|j: int| u.len() <= j < self.entries@.len() implies
                spawn.ensures((&#[trigger] self.entries@[j].relay_id,), self.entries@[j].handle) by {
                assert(self.entries@[j] == e1[j - u.len() + n]);
            }
            lemma_unfinished_ids(e0, finished@, n as int);
            lemma_ids_to_spawn_contains(reg, ids0);
            lemma_concat_contains(ids_of(u), sp);
            assert forall|j: int| 0 <= j < n && finished@[j] implies !self.ids().contains(#[trigger] ids0[j]) by {
                lemma_reaped_absent(e0, finished@, j);
                assert(ids0.contains(ids0[j]));
            }
            assert forall|x: Seq<char>| #[trigger] self.ids().contains(x) implies ids0.contains(x) || reg.contains(x) by {
                if ids_of(u).contains(x) {
                    let j = choose|j: int| 0 <= j < n && !finished@[j] && #[trigger] ids_of(e0)[j] == x;
                    assert(ids0[j] == x);
                }
            }
        }
    }

    /// Starts a worker, through `spawn`, for each relay of `registry` that
    /// has no entry, and records it.
    pub fn spawn_missing<F: Fn(&String) -> H>(&mut self, registry: &Vec<String>, spawn: F)
        requires
            old(self).wf(),
            forall|id: &String| spawn.requires((id,)),
        ensures
            final(self).wf(),
            final(self).ids() == old(self).ids() + ids_to_spawn(strings_view(registry@), old(self).ids()),
            final(self).entries().len() >= old(self).entries().len(),
            final(self).entries().subrange(0, old(self).entries().len() as int) == old(self).entries(),
            forall|j: int| old(self).entries().len() <= j < final(self).entries().len() ==>
                spawn.ensures((&#[trigger] final(self).entries()[j].relay_id,), final(self).entries()[j].handle),
    {
        let ghost present = self.ids();
        let ghost e0 = self.entries@;
        let ghost reg = strings_view(registry@);
        let mut k: usize = 0;
        while k < registry.len()
            invariant
                self.wf(),
                forall|id: &String| spawn.requires((id,)),
                reg == strings_view(registry@),
                present == ids_of(e0),
                present.no_duplicates(),
                k <= registry@.len(),
                self.ids() == present + ids_to_spawn(reg.take(k as int), present),
                self.entries@.len() >= e0.len(),
                self.entries@.subrange(0, e0.len() as int) == e0,
                forall|j: int| e0.len() <= j < self.entries@.len() ==>
                    spawn.ensures((&#[trigger] self.entries@[j].relay_id,), self.entries@[j].handle),
            decreases registry@.len() - k,
        {
            let id = &registry[k];
            proof {
                assert(reg.take(k + 1).drop_last() =~= reg.take(k as int));
                assert(reg.take(k + 1).last() == id@);
                lemma_ids_to_spawn_contains(reg.take(k as int), present);
                assert forall|x: Seq<char>| #[trigger] self.ids().contains(x) <==>
                    (present.contains(x) || ids_to_spawn(reg.take(k as int), present).contains(x)) by {
                    let s = ids_to_spawn(reg.take(k as int), present);
                    if self.ids().contains(x) {
                        let j = choose|j: int| 0 <= j < self.ids().len() && #[trigger] self.ids()[j] == x;
                        if j < present.len() {
                            assert(present[j] == x);
                        } else {
                            assert(s[j - present.len()] == x);
                        }
                    }
                    if present.contains(x) {
                        let j = choose|j: int| 0 <= j < present.len() && #[trigger] present[j] == x;
                        assert(self.ids()[j] == x);
                    }
                    if s.contains(x) {
                        let j = choose|j: int| 0 <= j < s.len() && #[trigger] s[j] == x;
                        assert(self.ids()[j + present.len()] == x);
                    }
                }
            }
            let ghost prev = ids_to_spawn(reg.take(k as int), present);
            if !self.contains(id) {
                let handle = spawn(id);
                let ghost before = self.entries@;
                let ghost before_ids = self.ids();
                self.insert(id.clone(), handle);
                proof {
                    assert(self.entries@.subrange(0, e0.len() as int) =~= before.subrange(0, e0.len() as int));
                    assert(self.ids() =~= before_ids.push(id@));
                    assert(ids_to_spawn(reg.take(k + 1), present) == prev.push(id@));
                    assert((present + prev).push(id@) =~= present + prev.push(id@));
                }
            } else {
                assert(ids_to_spawn(reg.take(k + 1), present) == prev);
            }
            k = k + 1;
        }
        proof {
            assert(reg.take(registry@.len() as int) =~= reg);
        }
    }
}

proof fn lemma_unfinished_prefix<H>(e1: Seq<ActiveEntry<H>>, f1: Seq<bool>, e2: Seq<ActiveEntry<H>>, f2: Seq<bool>, n: int)
    requires
        0 <= n <= e1.len(),
        n <= e2.len(),
        n <= f1.len(),
        n <= f2.len(),
        forall|j: int| 0 <= j < n ==> #[trigger] e1[j] == e2[j],
        forall|j: int| 0 <= j < n ==> #[trigger] f1[j] == f2[j],
    ensures
        unfinished(e1, f1, n) == unfinished(e2, f2, n),
    decreases n,
{
    if n > 0 {
        lemma_unfinished_prefix(e1, f1, e2, f2, n - 1);
    }
}

proof fn lemma_unfinished_tail<H>(e: Seq<ActiveEntry<H>>, f: Seq<bool>, n: int, m: int)
    requires
        0 <= n <= m <= e.len(),
        m <= f.len(),
        forall|j: int| n <= j < m ==> !f[j],
    ensures
        unfinished(e, f, m) == unfinished(e, f, n) + e.subrange(n, m),
    decreases m - n,
{
    if m == n {
        assert(unfinished(e, f, n) + e.subrange(n, m) =~= unfinished(e, f, n));
    } else {
        lemma_unfinished_tail(e, f, n, m - 1);
        assert((unfinished(e, f, n) + e.subrange(n, m - 1)).push(e[m - 1]) =~= unfinished(e, f, n) + e.subrange(n, m));
    }
}

proof fn lemma_concat_contains(a: Seq<Seq<char>>, b: Seq<Seq<char>>)
    ensures
        forall|x: Seq<char>| #[trigger] (a + b).contains(x) <==> (a.contains(x) || b.contains(x)),
{
    assert forall|x: Seq<char>| #[trigger] (a + b).contains(x) <==> (a.contains(x) || b.contains(x)) by {
        if (a + b).contains(x) {
            let j = choose|j: int| 0 <= j < (a + b).len() && #[trigger] (a + b)[j] == x;
            if j < a.len() {
                assert(a[j] == x);
            } else {
                assert(b[j - a.len()] == x);
            }
        }
        if a.contains(x) {
            let j = choose|j: int| 0 <= j < a.len() && #[trigger] a[j] == x;
            assert((a + b)[j] == x);
        }
        if b.contains(x) {
            let j = choose|j: int| 0 <= j < b.len() && #[trigger] b[j] == x;
            assert((a + b)[j + a.len()] == x);
        }
    }
}

proof fn lemma_unfinished_entries<H>(e: Seq<ActiveEntry<H>>, finished: Seq<bool>, n: int)
    requires
        0 <= n <= e.len(),
        n <= finished.len(),
    ensures
        forall|i: int| 0 <= i < unfinished(e, finished, n).len() ==>
            exists|j: int| 0 <= j < n && !finished[j] && e[j] == #[trigger] unfinished(e, finished, n)[i],
    decreases n,
{
    if n > 0 {
        lemma_unfinished_entries(e, finished, n - 1);
        let p = unfinished(e, finished, n - 1);
        if !finished[n - 1] {
            assert forall|i: int| 0 <= i < p.push(e[n - 1]).len() implies
                exists|j: int| 0 <= j < n && !finished[j] && e[j] == #[trigger] p.push(e[n - 1])[i] by {
                if i < p.len() {
                    assert(p.push(e[n - 1])[i] == p[i]);
                } else {
                    assert(e[n - 1] == p.push(e[n - 1])[i]);
                }
            }
        }
    }
}

proof fn lemma_unfinished_ids<H>(e: Seq<ActiveEntry<H>>, finished: Seq<bool>, n: int)
    requires
        0 <= n <= e.len(),
        n <= finished.len(),
        ids_of(e).no_duplicates(),
    ensures
        ids_of(unfinished(e, finished, n)).no_duplicates(),
        forall|x: Seq<char>| #[trigger] ids_of(unfinished(e, finished, n)).contains(x) ==>
            exists|j: int| 0 <= j < n && !finished[j] && #[trigger] ids_of(e)[j] == x,
    decreases n,
{
    if n > 0 {
        lemma_unfinished_ids(e, finished, n - 1);
        let p = unfinished(e, finished, n - 1);
        if !finished[n - 1] {
            let x = e[n - 1].relay_id@;
            assert(ids_of(p.push(e[n - 1])) =~= ids_of(p).push(x));
            assert(ids_of(e)[n - 1] == x);
            assert forall|y: Seq<char>| #[trigger] ids_of(p).push(x).contains(y) implies
                exists|j: int| 0 <= j < n && !finished[j] && #[trigger] ids_of(e)[j] == y by {
                let j = choose|j: int| 0 <= j < ids_of(p).push(x).len() && #[trigger] ids_of(p).push(x)[j] == y;
                if j < ids_of(p).len() {
                    assert(ids_of(p)[j] == y);
                    assert(ids_of(p).contains(y));
                }
            }
            if ids_of(p).contains(x) {
                let j = choose|j: int| 0 <= j < n - 1 && !finished[j] && #[trigger] ids_of(e)[j] == x;
                assert(ids_of(e)[n - 1] == x);
            }
        }
    }
}

/// A supervisor tick leaves exactly one entry for every relay of the
/// registry: after starting workers for the missing ids, each id of the
/// registry is in the table, no id is in it twice, and nothing else was added.
pub proof fn lemma_tick_converges(registry: Seq<Seq<char>>, present: Seq<Seq<char>>)
    requires
        present.no_duplicates(),
    ensures
        (present + ids_to_spawn(registry, present)).no_duplicates(),
        forall|x: Seq<char>| #[trigger] (present + ids_to_spawn(registry, present)).contains(x)
            <==> (present.contains(x) || registry.contains(x)),
{
    let s = ids_to_spawn(registry, present);
    let after = present + s;
    lemma_ids_to_spawn_contains(registry, present);
    assert forall|x: Seq<char>| #[trigger] after.contains(x) <==> (present.contains(x) || s.contains(x)) by {
        if after.contains(x) {
            let j = choose|j: int| 0 <= j < after.len() && #[trigger] after[j] == x;
            if j < present.len() {
                assert(present[j] == x);
            } else {
                assert(s[j - present.len()] == x);
            }
        }
        if present.contains(x) {
            let j = choose|j: int| 0 <= j < present.len() && #[trigger] present[j] == x;
            assert(after[j] == x);
        }
        if s.contains(x) {
            let j = choose|j: int| 0 <= j < s.len() && #[trigger] s[j] == x;
            assert(after[j + present.len()] == x);
        }
    }
    assert forall|i: int, j: int| 0 <= i < after.len() && 0 <= j < after.len() && i != j
        implies after[i] != after[j] by {
        if i < present.len() && j >= present.len() {
            assert(s.contains(after[j]));
            assert(present.contains(after[i]));
        } else if j < present.len() && i >= present.len() {
            assert(s.contains(after[i]));
            assert(present.contains(after[j]));
        }
    }
}

/// Reaping removes every worker whose task has finished: its relay has no
/// entry left, until a later tick starts a new one.
pub proof fn lemma_reaped_absent<H>(e: Seq<ActiveEntry<H>>, finished: Seq<bool>, i: int)
    requires
        ids_of(e).no_duplicates(),
        finished.len() == e.len(),
        0 <= i < e.len(),
        finished[i],
    ensures
        !ids_of(unfinished(e, finished, e.len() as int)).contains(e[i].relay_id@),
{
    lemma_unfinished_ids(e, finished, e.len() as int);
    let x = e[i].relay_id@;
    assert(ids_of(e)[i] == x);
    if ids_of(unfinished(e, finished, e.len() as int)).contains(x) {
        let j = choose|j: int| 0 <= j < e.len() && !finished[j] && #[trigger] ids_of(e)[j] == x;
        assert(j != i);
    }
}

proof fn lemma_ids_to_spawn_contains(registry: Seq<Seq<char>>, present: Seq<Seq<char>>)
    ensures
        ids_to_spawn(registry, present).no_duplicates(),
        forall|x: Seq<char>| #[trigger] ids_to_spawn(registry, present).contains(x)
            <==> (registry.contains(x) && !present.contains(x)),
    decreases registry.len(),
{
    if registry.len() > 0 {
        let r0 = registry.drop_last();
        lemma_ids_to_spawn_contains(r0, present);
        assert forall|x: Seq<char>| #[trigger] registry.contains(x) <==> (r0.contains(x) || x == registry.last()) by {
            if registry.contains(x) {
                let j = choose|j: int| 0 <= j < registry.len() && #[trigger] registry[j] == x;
                if j < registry.len() - 1 {
                    assert(r0[j] == x);
                }
            }
            if r0.contains(x) {
                let j = choose|j: int| 0 <= j < r0.len() && #[trigger] r0[j] == x;
                assert(registry[j] == x);
            }
        }
        let prev = ids_to_spawn(r0, present);
        let last = registry.last();
        if !(present.contains(last) || prev.contains(last)) {
            assert forall|x: Seq<char>| #[trigger] prev.push(last).contains(x) <==> (prev.contains(x) || x == last) by {
                if prev.push(last).contains(x) {
                    let j = choose|j: int| 0 <= j < prev.push(last).len() && #[trigger] prev.push(last)[j] == x;
                    if j < prev.len() {
                        assert(prev[j] == x);
                    }
                }
                if prev.contains(x) {
                    let j = choose|j: int| 0 <= j < prev.len() && #[trigger] prev[j] == x;
                    assert(prev.push(last)[j] == x);
                }
                if x == last {
                    assert(prev.push(last)[prev.len() as int] == x);
                }
            }
        }
    }
}

} // verus!
