//! The coordinate cache: a keyed single-flight map. For each key exactly one
//! caller is told to run the initializer; the others wait for its outcome.
//! A failed initialization frees the key, so that a later caller retries.

use vstd::prelude::*;
use crate::pom::{MavenPom, PomModel};

verus! {

/// The state of one key.
pub enum Cell {
    /// An initializer is running.
    InFlight,
    /// The POM is known.
    Ready(MavenPom),
}

pub ghost enum CellModel {
    InFlight,
    Ready(PomModel),
}

impl View for Cell {
    type V = CellModel;

    open spec fn view(&self) -> CellModel {
        match self {
            Cell::InFlight => CellModel::InFlight,
            Cell::Ready(p) => CellModel::Ready(p@),
        }
    }
}

/// What a caller of `begin` is to do.
pub enum Admission {
    /// Run the initializer, then report it with `finish`.
    Run,
    /// Another caller runs the initializer: wait for its outcome.
    Wait,
    /// The POM is already known.
    Hit(MavenPom),
}

pub ghost enum AdmissionModel {
    Run,
    Wait,
    Hit(PomModel),
}

impl View for Admission {
    type V = AdmissionModel;

    open spec fn view(&self) -> AdmissionModel {
        match self {
            Admission::Run => AdmissionModel::Run,
            Admission::Wait => AdmissionModel::Wait,
            Admission::Hit(p) => AdmissionModel::Hit(p@),
        }
    }
}

/// The latest state recorded for a key; `None` records that it was freed.
pub struct CacheEntry {
    pub key: String,
    pub cell: Option<Cell>,
}

pub open spec fn cells_map(s: Seq<CacheEntry>) -> Map<Seq<char>, CellModel>
    decreases s.len(),
{
    if s.len() == 0 {
        Map::empty()
    } else {
        match s.last().cell {
            Some(c) => cells_map(s.drop_last()).insert(s.last().key@, c@),
            None => cells_map(s.drop_last()).remove(s.last().key@),
        }
    }
}

proof fn lemma_cells_lookup(s: Seq<CacheEntry>, k: Seq<char>, idx: int)
    requires
        0 <= idx < s.len(),
        s[idx].key@ == k,
        forall|j: int| idx < j < s.len() ==> (#[trigger] s[j]).key@ != k,
    ensures
        match s[idx].cell {
            Some(c) => cells_map(s).contains_key(k) && cells_map(s)[k] == c@,
            None => !cells_map(s).contains_key(k),
        },
    decreases s.len(),
{
    if idx < s.len() - 1 {
        lemma_cells_lookup(s.drop_last(), k, idx);
    }
}

proof fn lemma_cells_absent(s: Seq<CacheEntry>, k: Seq<char>)
    requires
        forall|j: int| 0 <= j < s.len() ==> (#[trigger] s[j]).key@ != k,
    ensures
        !cells_map(s).contains_key(k),
    decreases s.len(),
{
    if s.len() > 0 {
        lemma_cells_absent(s.drop_last(), k);
    }
}

/// The outcome of one call of `begin` with key `k` on cache state `m`: the
/// new state and what the caller is to do.
pub open spec fn begin_spec(m: Map<Seq<char>, CellModel>, k: Seq<char>) -> (
    Map<Seq<char>, CellModel>,
    AdmissionModel,
) {
    if !m.contains_key(k) {
        (m.insert(k, CellModel::InFlight), AdmissionModel::Run)
    } else {
        match m[k] {
            CellModel::InFlight => (m, AdmissionModel::Wait),
            CellModel::Ready(p) => (m, AdmissionModel::Hit(p)),
        }
    }
}

/// The state after the initializer of `k` reported `r` (`None`: it failed).
pub open spec fn finish_spec(m: Map<Seq<char>, CellModel>, k: Seq<char>, r: Option<PomModel>) -> Map<
    Seq<char>,
    CellModel,
> {
    match r {
        Some(p) => m.insert(k, CellModel::Ready(p)),
        None => m.remove(k),
    }
}


/// What `n` successive callers of `begin` with key `k` are told, starting
/// from cache state `m`.
pub open spec fn begin_many(m: Map<Seq<char>, CellModel>, k: Seq<char>, n: nat) -> Seq<
    AdmissionModel,
>
    decreases n,
{
    if n == 0 {
        Seq::empty()
    } else {
        seq![begin_spec(m, k).1] + begin_many(begin_spec(m, k).0, k, (n - 1) as nat)
    }
}

proof fn lemma_all_wait(m: Map<Seq<char>, CellModel>, k: Seq<char>, n: nat)
    requires
        m.contains_key(k),
        m[k] == CellModel::InFlight,
    ensures
        begin_many(m, k, n).len() == n,
        forall|i: int| 0 <= i < n ==> #[trigger] begin_many(m, k, n)[i] == AdmissionModel::Wait,
    decreases n,
{
    if n > 0 {
        lemma_all_wait(m, k, (n - 1) as nat);
        let rest = begin_many(m, k, (n - 1) as nat);
        assert forall|i: int| 0 <= i < n implies #[trigger] begin_many(m, k, n)[i]
            == AdmissionModel::Wait by {
            if i > 0 {
                assert(begin_many(m, k, n)[i] == rest[i - 1]);
            }
        }
    }
}

/// Single flight: of any number of callers for a key that is not cached,
/// exactly the first runs the initializer; all the others wait for it.
pub proof fn lemma_single_flight(m: Map<Seq<char>, CellModel>, k: Seq<char>, n: nat)
    requires
        !m.contains_key(k),
    ensures
        begin_many(m, k, n).len() == n,
        forall|i: int|
            0 <= i < n ==> #[trigger] begin_many(m, k, n)[i] == if i == 0 {
                AdmissionModel::Run
            } else {
                AdmissionModel::Wait
            },
{
    if n > 0 {
        let m2 = m.insert(k, CellModel::InFlight);
        lemma_all_wait(m2, k, (n - 1) as nat);
        let rest = begin_many(m2, k, (n - 1) as nat);
        assert forall|i: int| 0 <= i < n implies #[trigger] begin_many(m, k, n)[i] == if i == 0 {
            AdmissionModel::Run
        } else {
            AdmissionModel::Wait
        } by {
            if i > 0 {
                assert(begin_many(m, k, n)[i] == rest[i - 1]);
            }
        }
    }
}

/// Once the initializer of a key has reported its POM, every caller for
/// that key receives that same POM.
pub proof fn lemma_shared_outcome(m: Map<Seq<char>, CellModel>, k: Seq<char>, p: PomModel, n: nat)
    ensures
        begin_many(finish_spec(m, k, Some(p)), k, n).len() == n,
        forall|i: int|
            0 <= i < n ==> #[trigger] begin_many(finish_spec(m, k, Some(p)), k, n)[i]
                == AdmissionModel::Hit(p),
    decreases n,
{
    if n > 0 {
        let m2 = finish_spec(m, k, Some(p));
        assert(begin_spec(m2, k).0 == m2);
        assert(finish_spec(m2, k, Some(p)) =~= m2);
        lemma_shared_outcome(m2, k, p, (n - 1) as nat);
        let rest = begin_many(m2, k, (n - 1) as nat);
        assert forall|i: int| 0 <= i < n implies #[trigger] begin_many(m2, k, n)[i]
            == AdmissionModel::Hit(p) by {
            if i > 0 {
                assert(begin_many(m2, k, n)[i] == rest[i - 1]);
            }
        }
    }
}

/// A failed initializer is not remembered: the next caller for the key is
/// told to run it again.
pub proof fn lemma_failure_retried(m: Map<Seq<char>, CellModel>, k: Seq<char>)
    ensures
        begin_spec(finish_spec(m, k, None), k).1 == AdmissionModel::Run,
{
}

/// In-memory pom cache, so we don't have to download them again.
pub struct PomCache {
    /// groupid:artifactid:version as key
    pub entries: Vec<CacheEntry>,
}

impl View for PomCache {
    type V = Map<Seq<char>, CellModel>;

    open spec fn view(&self) -> Map<Seq<char>, CellModel> {
        cells_map(self.entries@)
    }
}

impl PomCache {
    pub fn new() -> (r: PomCache)
        ensures
            r@ == Map::<Seq<char>, CellModel>::empty(),
    {
        PomCache { entries: Vec::new() }
    }

    fn find(&self, key: &String) -> (r: Option<usize>)
        ensures
            match r {
                Some(i) => i < self.entries.len() && match self.entries@[i as int].cell {
                    Some(c) => self@.contains_key(key@) && self@[key@] == c@,
                    None => !self@.contains_key(key@),
                },
                None => !self@.contains_key(key@),
            },
    {
        let mut i: usize = self.entries.len();
        while i > 0
            invariant
                i <= self.entries.len(),
                forall|j: int| i <= j < self.entries.len() ==> (#[trigger] self.entries@[j]).key@
                    != key@,
            decreases i,
        {
            i -= 1;
            if self.entries[i].key == *key {
                proof {
                    lemma_cells_lookup(self.entries@, key@, i as int);
                }
                return Some(i);
            }
        }
        proof {
            lemma_cells_absent(self.entries@, key@);
        }
        None
    }

    /// The POM cached under `notation`, if it is known (a non-blocking peek).
    pub fn get(&self, notation: &String) -> (r: Option<&MavenPom>)
        ensures
            match r {
                Some(p) => self@.contains_key(notation@) && self@[notation@] == CellModel::Ready(
                    p@,
                ),
                None => !self@.contains_key(notation@) || self@[notation@] is InFlight,
            },
    {
        match self.find(notation) {
            Some(i) => match &self.entries[i].cell {
                Some(Cell::Ready(p)) => Some(p),
                _ => None,
            },
            None => None,
        }
    }

    fn set(&mut self, key: &String, cell: Cell)
        ensures
            final(self)@ == old(self)@.insert(key@, cell@),
    {
        let ghost prev = self.entries@;
        self.entries.push(CacheEntry { key: key.clone(), cell: Some(cell) });
        proof {
            assert(self.entries@.drop_last() =~= prev);
        }
    }

    fn remove(&mut self, key: &String)
        ensures
            final(self)@ == old(self)@.remove(key@),
    {
        let ghost prev = self.entries@;
        self.entries.push(CacheEntry { key: key.clone(), cell: None });
        proof {
            assert(self.entries@.drop_last() =~= prev);
        }
    }

    /// Admit a caller for `key`: the first one runs the initializer, the
    /// others wait, and once the POM is known every caller gets it.
    pub fn begin(&mut self, key: &String) -> (r: Admission)
        ensures
            (final(self)@, r@) == begin_spec(old(self)@, key@),
    {
        match self.find(key) {
            Some(i) => match &self.entries[i].cell {
                Some(Cell::Ready(p)) => Admission::Hit(p.duplicate()),
                Some(Cell::InFlight) => Admission::Wait,
                None => {
                    self.set(key, Cell::InFlight);
                    Admission::Run
                },
            },
            None => {
                self.set(key, Cell::InFlight);
                Admission::Run
            },
        }
    }

    /// Report the outcome of the initializer of `key`: the POM, or `None`
    /// when it failed, which frees the key for a retry.
    pub fn finish(&mut self, key: &String, result: Option<MavenPom>)
        ensures
            final(self)@ == finish_spec(
                old(self)@,
                key@,
                match result {
                    Some(p) => Some(p@),
                    None => None,
                },
            ),
    {
        match result {
            Some(p) => self.set(key, Cell::Ready(p)),
            None => self.remove(key),
        }
    }
}

} // verus!
