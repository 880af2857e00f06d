//! A fixed-capacity cuckoo hash table: each key lives in one of two slots, chosen
//! by two independent universal hash functions, so a lookup makes two probes.

use vstd::prelude::*;
use crate::layout::{
    chain_succeeds, empty_layout, entries_unique, holds, lacks_entry, layout_ok, place, Placement,
};
use crate::wu::{WUHash, WUHashBuilder};

verus! {

/// The largest capacity the table grows to.
pub const MAX_CAPACITY: u64 = 2147483648;

/// How many larger capacities one insertion tries before giving up.
pub const MAX_RESIZE_ATTEMPTS: u64 = 8;

/// How many times a freshly drawn hash function is redrawn when it repeats the other.
const MAX_REDRAWS: u64 = 8;

/// A key type: what the table needs of a key is a stable 64-bit projection.
/// Two keys with the same projection are the same key to the table.
pub trait CuckooHashable {
    spec fn spec_cuckoo_hash(&self) -> u64;

    fn cuckoo_hash(&self) -> (r: u64)
        ensures
            r == self.spec_cuckoo_hash(),
    ;
}

impl CuckooHashable for u64 {
    open spec fn spec_cuckoo_hash(&self) -> u64 {
        *self
    }

    fn cuckoo_hash(&self) -> (r: u64) {
        *self
    }
}

impl CuckooHashable for u32 {
    open spec fn spec_cuckoo_hash(&self) -> u64 {
        *self as u64
    }

    fn cuckoo_hash(&self) -> (r: u64) {
        *self as u64
    }
}

impl CuckooHashable for usize {
    open spec fn spec_cuckoo_hash(&self) -> u64 {
        *self as u64
    }

    fn cuckoo_hash(&self) -> (r: u64) {
        *self as u64
    }
}

/// Which of the two hash functions leads to the slot that an entry occupies.
#[derive(Debug, Clone, Copy, PartialEq, Eq, Structural)]
pub enum HashChoice {
    First,
    Second,
}

/// Why an insertion failed.
#[derive(Debug, Clone, Copy, PartialEq, Eq, Structural)]
pub enum TableError {
    /// A displacement chain grew past its bound. `insert` recovers from it by
    /// growing the table and does not return it.
    EvictionCycle,
    /// No larger capacity, up to the limit, could hold the keys.
    ResizeExhausted,
}

/// An occupied slot: the key, its projection, its value, and which hash function
/// placed it there.
struct Nest<K, V> {
    hash_used: HashChoice,
    hash: u64,
    key: K,
    obj: V,
}

/// The hash function that leads to slot `i` for the projection `h`: the first,
/// whenever it does.
pub open spec fn choice_for(i: int, g1: WUHash, h: u64) -> HashChoice {
    if i == g1.spec_eval(h) {
        HashChoice::First
    } else {
        HashChoice::Second
    }
}

spec fn slot_has<K, V>(s: Seq<Option<Nest<K, V>>>, i: int, k: u64) -> bool {
    0 <= i < s.len() && s[i] is Some && s[i]->Some_0.hash == k
}

/// The slots `s` store the map `m` for the hash functions `g1` and `g2`.
spec fn slots_ok<K: CuckooHashable, V>(s: Seq<Option<Nest<K, V>>>, g1: WUHash, g2: WUHash, m: Map<u64, V>) -> bool {
    &&& forall|i: int|
        #![trigger s[i]]
        0 <= i < s.len() && s[i] is Some ==> {
            let n = s[i]->Some_0;
            &&& n.hash == n.key.spec_cuckoo_hash()
            &&& m.contains_key(n.hash)
            &&& m[n.hash] == n.obj
            &&& (i == g1.spec_eval(n.hash) || i == g2.spec_eval(n.hash))
            &&& n.hash_used == choice_for(i, g1, n.hash)
        }
    &&& forall|i: int, j: int|
        #![trigger s[i], s[j]]
        0 <= i < s.len() && 0 <= j < s.len() && s[i] is Some && s[j] is Some && s[i]->Some_0.hash
            == s[j]->Some_0.hash ==> i == j
    &&& forall|k: u64|
        #[trigger] m.contains_key(k) ==> slot_has(s, g1.spec_eval(k) as int, k) || slot_has(
            s,
            g2.spec_eval(k) as int,
            k,
        )
}

/// The integer base-2 logarithm of `n`, with 0 for 0 and 1.
pub open spec fn log2(n: nat) -> nat
    decreases n,
{
    if n <= 1 {
        0
    } else {
        1 + log2(n / 2)
    }
}

proof fn lemma_log2_le(n: nat)
    ensures
        log2(n) <= n,
    decreases n,
{
    if n > 1 {
        lemma_log2_le(n / 2);
    }
}

/// The longest displacement chain allowed at capacity `cap`: eight times one more
/// than the integer base-2 logarithm of `cap`.
fn chain_bound(cap: u64) -> (r: u64)
    requires
        cap <= MAX_CAPACITY,
    ensures
        r == 8 * (1 + log2(cap as nat)),
{
    proof {
        lemma_log2_le(cap as nat);
    }
    let mut c: u64 = cap;
    let mut l: u64 = 1;
    while c > 1
        invariant
            c <= cap <= MAX_CAPACITY,
            l + log2(c as nat) == 1 + log2(cap as nat),
            log2(cap as nat) <= cap,
        decreases c,
    {
        c = c / 2;
        l = l + 1;
    }
    8 * l
}

fn same_pair(x: (u64, u64), y: (u64, u64)) -> (r: bool)
    ensures
        r == (x == y),
{
    x.0 == y.0 && x.1 == y.1
}

/// Two hash functions with modulus `cap`, redrawn until their coefficients differ.
fn new_hash_pair(cap: u64) -> (r: (WUHash, WUHash))
    requires
        0 < cap <= MAX_CAPACITY,
    ensures
        r.0.indexable(),
        r.1.indexable(),
        r.0.spec_modulus() == cap,
        r.1.spec_modulus() == cap,
        (r.0.spec_a(), r.0.spec_b()) != (r.1.spec_a(), r.1.spec_b()),
{
    let mut b1 = WUHashBuilder::new();
    let h1 = b1.modulus(cap).finalize().unwrap();
    let mut b2 = WUHashBuilder::new();
    let mut h2 = b2.modulus(cap).finalize().unwrap();
    let (a1, c1) = h1.coefficients();
    let mut redraws: u64 = 0;
    while same_pair((a1, c1), h2.coefficients()) && redraws < MAX_REDRAWS
        invariant
            h1.indexable(),
            h2.indexable(),
            h1.spec_modulus() == cap,
            h2.spec_modulus() == cap,
            (a1, c1) == (h1.spec_a(), h1.spec_b()),
        decreases MAX_REDRAWS - redraws,
    {
        let mut b = WUHashBuilder::new();
        h2 = b.modulus(cap).finalize().unwrap();
        redraws = redraws + 1;
    }
    if same_pair((a1, c1), h2.coefficients()) {
        let mut b = WUHashBuilder::new();
        h2 = b.modulus(cap).a(a1).b(if c1 == 1 { 2 } else { 1 }).finalize().unwrap();
    }
    (h1, h2)
}

/// `n` empty slots.
fn empty_slots<K, V>(n: u64) -> (s: Vec<Option<Nest<K, V>>>)
    requires
        n <= usize::MAX,
    ensures
        s@.len() == n,
        forall|i: int| 0 <= i < n ==> (#[trigger] s@[i]) is None,
{
    let mut s: Vec<Option<Nest<K, V>>> = Vec::new();
    let mut i: u64 = 0;
    while i < n
        invariant
            i <= n,
            s@.len() == i,
            forall|j: int| 0 <= j < i ==> (#[trigger] s@[j]) is None,
        decreases n - i,
    {
        s.push(None);
        i = i + 1;
    }
    s
}

/// The layout of the slots `s` as they stand: entry `i` in slot `i`.
spec fn layout_of<K, V>(s: Seq<Option<Nest<K, V>>>) -> Seq<Option<Placement>> {
    Seq::new(
        s.len(),
        |i: int|
            if s[i] is Some {
                Some((s[i]->Some_0.hash, i as usize))
            } else {
                None
            },
    )
}

/// Entry number `q.1` stands in slot `q.1` of `s` with projection `q.0`; number
/// `s.len()` stands for `extra`.
spec fn source_of<K, V>(s: Seq<Option<Nest<K, V>>>, extra: Option<Nest<K, V>>, q: Placement) -> bool {
    ||| (q.1 < s.len() && s[q.1 as int] is Some && s[q.1 as int]->Some_0.hash == q.0)
    ||| (q.1 == s.len() && extra is Some && extra->Some_0.hash == q.0)
}

/// The layout `l` places exactly the entries of `s` and `extra`.
spec fn describes<K, V>(l: Seq<Option<Placement>>, s: Seq<Option<Nest<K, V>>>, extra: Option<Nest<K, V>>) -> bool {
    forall|q: Placement| holds(l, q) <==> source_of(s, extra, q)
}

/// The entry that slot `j` receives when placement `p` is carried out.
spec fn moved<K, V>(
    p: Option<Placement>,
    j: int,
    g1: WUHash,
    s: Seq<Option<Nest<K, V>>>,
    extra: Option<Nest<K, V>>,
) -> Option<Nest<K, V>> {
    match p {
        None => None,
        Some(q) => {
            let n = if q.1 < s.len() {
                s[q.1 as int]->Some_0
            } else {
                extra->Some_0
            };
            Some(Nest { hash_used: choice_for(j, g1, q.0), ..n })
        },
    }
}

/// The map `m` with `extra` added.
spec fn with_extra<K, V>(m: Map<u64, V>, extra: Option<Nest<K, V>>) -> Map<u64, V> {
    match extra {
        Some(n) => m.insert(n.hash, n.obj),
        None => m,
    }
}

/// A fresh entry that the table can take: its projection is its key's, and new.
spec fn fits<K: CuckooHashable, V>(m: Map<u64, V>, extra: Option<Nest<K, V>>) -> bool {
    extra is Some ==> {
        let n = extra->Some_0;
        n.hash == n.key.spec_cuckoo_hash() && !m.contains_key(n.hash)
    }
}

/// Carrying out a layout that places exactly the stored entries and `extra`, for new
/// hash functions, stores the old map with `extra` added.
proof fn lemma_relocated<K: CuckooHashable, V>(
    s: Seq<Option<Nest<K, V>>>,
    g1o: WUHash,
    g2o: WUHash,
    m: Map<u64, V>,
    extra: Option<Nest<K, V>>,
    l: Seq<Option<Placement>>,
    g1: WUHash,
    g2: WUHash,
    fresh: Seq<Option<Nest<K, V>>>,
)
    requires
        slots_ok(s, g1o, g2o, m),
        s.len() <= usize::MAX,
        fits(m, extra),
        layout_ok(l, g1, g2),
        describes(l, s, extra),
        fresh.len() == l.len(),
        forall|j: int| 0 <= j < l.len() ==> #[trigger] fresh[j] == moved(l[j], j, g1, s, extra),
    ensures
        slots_ok(fresh, g1, g2, with_extra(m, extra)),
{
    let m2 = with_extra(m, extra);
    assert forall|j: int| 0 <= j < l.len() && (#[trigger] l[j]) is Some implies source_of(s, extra, l[j]->Some_0) by {
        assert(holds(l, l[j]->Some_0));
    }
    assert forall|i: int| #![trigger fresh[i]] 0 <= i < fresh.len() && fresh[i] is Some implies {
        let n = fresh[i]->Some_0;
        &&& n.hash == n.key.spec_cuckoo_hash()
        &&& m2.contains_key(n.hash)
        &&& m2[n.hash] == n.obj
        &&& (i == g1.spec_eval(n.hash) || i == g2.spec_eval(n.hash))
        &&& n.hash_used == choice_for(i, g1, n.hash)
    } by {
        let q = l[i]->Some_0;
        assert(l[i] is Some);
        assert(source_of(s, extra, q));
        if q.1 < s.len() {
            assert(s[q.1 as int] is Some);
        }
    }
    assert forall|i: int, j: int|
        #![trigger fresh[i], fresh[j]]
        0 <= i < fresh.len() && 0 <= j < fresh.len() && fresh[i] is Some && fresh[j] is Some
            && fresh[i]->Some_0.hash == fresh[j]->Some_0.hash implies i == j by {
        let qi = l[i]->Some_0;
        let qj = l[j]->Some_0;
        assert(l[i] is Some && l[j] is Some);
        assert(source_of(s, extra, qi) && source_of(s, extra, qj));
        if qi.1 < s.len() && qj.1 < s.len() {
            assert(s[qi.1 as int] is Some && s[qj.1 as int] is Some);
        } else if qi.1 < s.len() {
            assert(s[qi.1 as int] is Some);
        } else if qj.1 < s.len() {
            assert(s[qj.1 as int] is Some);
        }
    }
    assert forall|k: u64| #[trigger] m2.contains_key(k) implies slot_has(fresh, g1.spec_eval(k) as int, k)
        || slot_has(fresh, g2.spec_eval(k) as int, k) by {
        let q: Placement = if m.contains_key(k) {
            let t = if slot_has(s, g1o.spec_eval(k) as int, k) {
                g1o.spec_eval(k)
            } else {
                g2o.spec_eval(k)
            };
            (k, t as usize)
        } else {
            (k, s.len() as usize)
        };
        if m.contains_key(k) {
            assert(slot_has(s, g1o.spec_eval(k) as int, k) || slot_has(s, g2o.spec_eval(k) as int, k));
        }
        assert(source_of(s, extra, q));
        assert(holds(l, q));
        let j = choose|j: int| 0 <= j < l.len() && l[j] == Some(q);
        assert(l[j] is Some);
        assert(fresh[j] is Some);
    }
}

/// Carries out the layout `l`: slot `j` receives the entry that `l` places there,
/// marked with the hash function that leads to it.
fn relocate<K, V>(
    olds: Vec<Option<Nest<K, V>>>,
    l: &Vec<Option<Placement>>,
    g1: &WUHash,
    extra: Option<Nest<K, V>>,
) -> (fresh: Vec<Option<Nest<K, V>>>)
    requires
        g1.indexable(),
        entries_unique(l@),
        describes(l@, olds@, extra),
    ensures
        fresh@.len() == l@.len(),
        forall|j: int| 0 <= j < l@.len() ==> #[trigger] fresh@[j] == moved(l@[j], j, *g1, olds@, extra),
{
    let ghost orig = olds@;
    let ghost orig_extra = extra;
    let mut olds = olds;
    let mut extra = extra;
    let mut fresh: Vec<Option<Nest<K, V>>> = Vec::new();
    let mut j: usize = 0;
    while j < l.len()
        invariant
            j <= l@.len(),
            fresh@.len() == j,
            olds@.len() == orig.len(),
            entries_unique(l@),
            describes(l@, orig, orig_extra),
            g1.indexable(),
            forall|t: int| 0 <= t < j ==> #[trigger] fresh@[t] == moved(l@[t], t, *g1, orig, orig_extra),
            forall|t: int|
                j <= t < l@.len() && (#[trigger] l@[t]) is Some && l@[t]->Some_0.1 < orig.len() ==> olds@[l@[t]->Some_0.1 as int]
                    == orig[l@[t]->Some_0.1 as int],
            forall|t: int|
                j <= t < l@.len() && (#[trigger] l@[t]) is Some && l@[t]->Some_0.1 >= orig.len() ==> extra
                    == orig_extra,
        decreases l@.len() - j,
    {
        match l[j] {
            None => {
                fresh.push(None);
            },
            Some(q) => {
                assert(holds(l@, q));
                let mut taken: Option<Nest<K, V>> = None;
                if q.1 < olds.len() {
                    olds.set_and_swap(q.1, &mut taken);
                } else {
                    std::mem::swap(&mut extra, &mut taken);
                }
                let mut n = taken.unwrap();
                n.hash_used = if j == g1.eval(q.0) {
                    HashChoice::First
                } else {
                    HashChoice::Second
                };
                fresh.push(Some(n));
                assert forall|t: int|
                    j + 1 <= t < l@.len() && (#[trigger] l@[t]) is Some && l@[t]->Some_0.1 < orig.len() implies olds@[l@[t]->Some_0.1 as int]
                        == orig[l@[t]->Some_0.1 as int] by {
                    assert(l@[j as int] is Some);
                }
                assert forall|t: int|
                    j + 1 <= t < l@.len() && (#[trigger] l@[t]) is Some && l@[t]->Some_0.1 >= orig.len() implies extra
                        == orig_extra by {
                    assert(l@[j as int] is Some);
                    assert(holds(l@, l@[t]->Some_0));
                }
            },
        }
        j = j + 1;
    }
    fresh
}

/// A cuckoo hash table from keys of type `K` to values of type `V`.
pub struct CuckooHash<K, V> {
    internal_size: u64,
    wu_hash_1: WUHash,
    wu_hash_2: WUHash,
    elements: Vec<Option<Nest<K, V>>>,
    count: u64,
    max_eviction_chain: u64,
    contents: Ghost<Map<u64, V>>,
}

impl<K, V> View for CuckooHash<K, V> {
    type V = Map<u64, V>;

    /// The stored map, from key projections to values.
    closed spec fn view(&self) -> Map<u64, V> {
        self.contents@
    }
}

impl<K: CuckooHashable, V> CuckooHash<K, V> {
    /// The number of slots.
    pub closed spec fn spec_capacity(&self) -> u64 {
        self.internal_size
    }

    /// A new key with projection `k` can be stored at the current capacity: the
    /// table stays at most half full, and the displacement chain for `k` ends in an
    /// empty slot.
    pub closed spec fn places_without_growth(&self, k: u64) -> bool {
        &&& 2 * (self.count + 1) <= self.internal_size
        &&& chain_succeeds(
            layout_of(self.elements@),
            self.wu_hash_1,
            self.wu_hash_2,
            (k, self.elements@.len() as usize),
            self.wu_hash_1.spec_eval(k) as int,
            self.max_eviction_chain as nat,
        )
    }

    /// The first hash function.
    pub closed spec fn hash1(&self) -> WUHash {
        self.wu_hash_1
    }

    /// The second hash function.
    pub closed spec fn hash2(&self) -> WUHash {
        self.wu_hash_2
    }

    /// The table's invariant.
    pub closed spec fn wf(&self) -> bool {
        &&& self.elements@.len() == self.internal_size
        &&& 2 <= self.internal_size <= MAX_CAPACITY
        &&& self.wu_hash_1.indexable()
        &&& self.wu_hash_2.indexable()
        &&& self.wu_hash_1.spec_modulus() == self.internal_size
        &&& self.wu_hash_2.spec_modulus() == self.internal_size
        &&& self.contents@.dom().finite()
        &&& self.count == self.contents@.len()
        &&& 2 * self.count <= self.internal_size
        &&& slots_ok(self.elements@, self.wu_hash_1, self.wu_hash_2, self.contents@)
    }

    /// An empty table of `initial_capacity` slots.
    pub fn new(initial_capacity: u64) -> (r: Self)
        requires
            2 <= initial_capacity <= MAX_CAPACITY,
        ensures
            r.wf(),
            r@ == Map::<u64, V>::empty(),
            r.spec_capacity() == initial_capacity,
            (r.hash1().spec_a(), r.hash1().spec_b()) != (r.hash2().spec_a(), r.hash2().spec_b()),
    {
        let (g1, g2) = new_hash_pair(initial_capacity);
        let elements = empty_slots(initial_capacity);
        CuckooHash {
            internal_size: initial_capacity,
            wu_hash_1: g1,
            wu_hash_2: g2,
            elements,
            count: 0,
            max_eviction_chain: chain_bound(initial_capacity),
            contents: Ghost(Map::empty()),
        }
    }

    /// An empty table whose slots are addressed by `h1` and `h2`, which must share
    /// their modulus; it becomes the capacity. Growing the table draws new functions.
    pub fn with_hash_functions(h1: WUHash, h2: WUHash) -> (r: Self)
        requires
            h1.indexable(),
            h2.indexable(),
            h1.spec_modulus() == h2.spec_modulus(),
            2 <= h1.spec_modulus() <= MAX_CAPACITY,
        ensures
            r.wf(),
            r@ == Map::<u64, V>::empty(),
            r.spec_capacity() == h1.spec_modulus(),
            r.hash1() == h1,
            r.hash2() == h2,
    {
        let cap = h1.modulus();
        CuckooHash {
            internal_size: cap,
            wu_hash_1: h1,
            wu_hash_2: h2,
            elements: empty_slots(cap),
            count: 0,
            max_eviction_chain: chain_bound(cap),
            contents: Ghost(Map::empty()),
        }
    }

    /// What a lookup of projection `k` finds.
    pub open spec fn spec_get(&self, k: u64) -> Option<V> {
        if self@.contains_key(k) {
            Some(self@[k])
        } else {
            None
        }
    }

    /// Whether a new key `key` can be stored without growing the table; see
    /// `places_without_growth`.
    pub fn fits_without_growth(&self, key: &K) -> (r: bool)
        requires
            self.wf(),
        ensures
            r == self.places_without_growth(key.spec_cuckoo_hash()),
    {
        let hk = key.cuckoo_hash();
        if 2 * (self.count + 1) > self.internal_size {
            return false;
        }
        let mut l = self.current_layout();
        place(&mut l, &self.wu_hash_1, &self.wu_hash_2, (hk, self.elements.len()), self.max_eviction_chain)
    }

    /// The number of stored keys.
    pub fn len(&self) -> (r: u64)
        requires
            self.wf(),
        ensures
            r == self@.len(),
    {
        self.count
    }

    /// The number of slots.
    pub fn capacity(&self) -> (r: u64)
        ensures
            r == self.spec_capacity(),
    {
        self.internal_size
    }

    /// The layout of the slots as they stand: entry `i` in slot `i`.
    fn current_layout(&self) -> (l: Vec<Option<Placement>>)
        requires
            self.wf(),
        ensures
            l@ == layout_of(self.elements@),
            layout_ok(l@, self.wu_hash_1, self.wu_hash_2),
            describes(l@, self.elements@, None),
            lacks_entry(l@, self.elements@.len() as usize),
    {
        let mut l: Vec<Option<Placement>> = Vec::new();
        let mut i: usize = 0;
        while i < self.elements.len()
            invariant
                self.wf(),
                i <= self.elements@.len(),
                l@.len() == i,
                forall|j: int|
                    0 <= j < i ==> #[trigger] l@[j] == (if self.elements@[j] is Some {
                        Some((self.elements@[j]->Some_0.hash, j as usize))
                    } else {
                        None::<Placement>
                    }),
            decreases self.elements@.len() - i,
        {
            match &self.elements[i] {
                Some(n) => l.push(Some((n.hash, i))),
                None => l.push(None),
            }
            i = i + 1;
        }
        let ghost s = self.elements@;
        assert(l@ =~= layout_of(s));
        assert forall|q: Placement| holds(l@, q) <==> source_of(s, None, q) by {
            if source_of(s, None, q) {
                assert(l@[q.1 as int] == Some(q));
            }
        }
        assert forall|j: int| 0 <= j < l@.len() && (#[trigger] l@[j]) is Some implies j == self.wu_hash_1.spec_eval(
            l@[j]->Some_0.0,
        ) || j == self.wu_hash_2.spec_eval(l@[j]->Some_0.0) by {
            assert(s[j] is Some);
        }
        l
    }

    /// Takes up the layout `l` for the hash functions `g1` and `g2`, with `extra`
    /// as the entry after the stored ones.
    fn adopt(&mut self, l: Vec<Option<Placement>>, g1: WUHash, g2: WUHash, extra: Option<Nest<K, V>>)
        requires
            old(self).wf(),
            layout_ok(l@, g1, g2),
            2 <= l@.len() <= MAX_CAPACITY,
            describes(l@, old(self).elements@, extra),
            fits(old(self)@, extra),
            2 * (old(self).count + (if extra is Some { 1int } else { 0int })) <= l@.len(),
        ensures
            final(self).wf(),
            final(self)@ == with_extra(old(self)@, extra),
            final(self).spec_capacity() == l@.len(),
    {
        let ghost s0 = self.elements@;
        let ghost m0 = self.contents@;
        let ghost e = extra;
        let add: u64 = if extra.is_some() { 1 } else { 0 };
        let mut olds: Vec<Option<Nest<K, V>>> = Vec::new();
        std::mem::swap(&mut self.elements, &mut olds);
        let fresh = relocate(olds, &l, &g1, extra);
        proof {
            lemma_relocated(s0, self.wu_hash_1, self.wu_hash_2, m0, e, l@, g1, g2, fresh@);
        }
        let cap = l.len() as u64;
        self.elements = fresh;
        self.internal_size = cap;
        self.wu_hash_1 = g1;
        self.wu_hash_2 = g2;
        self.count = self.count + add;
        self.max_eviction_chain = chain_bound(cap);
        self.contents = Ghost(with_extra(m0, e));
    }

    /// Stores the fresh entry `n`, displacing others if need be, at the current
    /// capacity; hands `n` back, with the table unchanged, when the displacement
    /// chain fails.
    fn try_place(&mut self, n: Nest<K, V>) -> (r: Result<(), Nest<K, V>>)
        requires
            old(self).wf(),
            fits(old(self)@, Some(n)),
            2 * (old(self).count + 1) <= old(self).internal_size,
        ensures
            r is Ok ==> final(self).wf() && final(self)@ == old(self)@.insert(n.hash, n.obj)
                && final(self).spec_capacity() == old(self).spec_capacity(),
            r is Err ==> *final(self) == *old(self) && r->Err_0 == n,
            r is Ok <==> chain_succeeds(
                layout_of(old(self).elements@),
                old(self).wu_hash_1,
                old(self).wu_hash_2,
                (n.hash, old(self).elements@.len() as usize),
                old(self).wu_hash_1.spec_eval(n.hash) as int,
                old(self).max_eviction_chain as nat,
            ),
    {
        let g1 = self.wu_hash_1;
        let g2 = self.wu_hash_2;
        let i1 = g1.eval(n.hash);
        if self.elements[i1].is_none() {
            let ghost s0 = self.elements@;
            let ghost m0 = self.contents@;
            let ghost hk = n.hash;
            let ghost v = n.obj;
            let mut n = n;
            n.hash_used = HashChoice::First;
            self.elements.set(i1, Some(n));
            self.count = self.count + 1;
            self.contents = Ghost(m0.insert(hk, v));
            proof {
                let s = self.elements@;
                let m = self.contents@;
                assert forall|k: u64| #[trigger] m.contains_key(k) implies slot_has(s, g1.spec_eval(k) as int, k)
                    || slot_has(s, g2.spec_eval(k) as int, k) by {
                    if k != hk {
                        assert(m0.contains_key(k));
                    }
                }
                assert forall|i: int, j: int|
                    #![trigger s[i], s[j]]
                    0 <= i < s.len() && 0 <= j < s.len() && s[i] is Some && s[j] is Some && s[i]->Some_0.hash
                        == s[j]->Some_0.hash implies i == j by {
                    if i != i1 {
                        assert(s0[i] is Some);
                    }
                    if j != i1 {
                        assert(s0[j] is Some);
                    }
                }
            }
            return Ok(());
        }
        let mut l = self.current_layout();
        let ghost l0 = l@;
        let entry: Placement = (n.hash, self.elements.len());
        if place(&mut l, &g1, &g2, entry, self.max_eviction_chain) {
            assert forall|q: Placement| holds(l@, q) <==> source_of(self.elements@, Some(n), q) by {
                assert(holds(l0, q) <==> source_of(self.elements@, None, q));
            }
            self.adopt(l, g1, g2, Some(n));
            Ok(())
        } else {
            Err(n)
        }
    }

    /// Moves every entry into a table of `new_capacity` slots with newly drawn hash
    /// functions. Returns whether that succeeded; when it did not, nothing changed.
    fn resize(&mut self, new_capacity: u64) -> (ok: bool)
        requires
            old(self).wf(),
            2 * old(self).count <= new_capacity,
            2 <= new_capacity <= MAX_CAPACITY,
        ensures
            ok ==> final(self).wf() && final(self)@ == old(self)@ && final(self).spec_capacity() == new_capacity,
            !ok ==> *final(self) == *old(self),
    {
        let (g1, g2) = new_hash_pair(new_capacity);
        let chain = chain_bound(new_capacity);
        let mut l = empty_layout(new_capacity as usize);
        let ghost s = self.elements@;
        let mut i: usize = 0;
        while i < self.elements.len()
            invariant
                self.elements@ == s,
                i <= s.len(),
                layout_ok(l@, g1, g2),
                l@.len() == new_capacity,
                forall|q: Placement| holds(l@, q) <==> (q.1 < i && source_of(s, None, q)),
            decreases s.len() - i,
        {
            if let Some(n) = &self.elements[i] {
                let ghost l0 = l@;
                assert forall|j: int| 0 <= j < l@.len() && (#[trigger] l@[j]) is Some implies l@[j]->Some_0.1 != i by {
                    assert(holds(l@, l@[j]->Some_0));
                }
                if !place(&mut l, &g1, &g2, (n.hash, i), chain) {
                    return false;
                }
                assert forall|q: Placement| holds(l@, q) <==> (q.1 < i + 1 && source_of(s, None, q)) by {
                    assert(holds(l0, q) <==> (q.1 < i && source_of(s, None, q)));
                }
            } else {
                assert forall|q: Placement| holds(l@, q) <==> (q.1 < i + 1 && source_of(s, None, q)) by {
                    assert(holds(l@, q) <==> (q.1 < i && source_of(s, None, q)));
                }
            }
            i = i + 1;
        }
        assert(with_extra(self.contents@, None::<Nest<K, V>>) == self.contents@);
        self.adopt(l, g1, g2, None);
        true
    }

    /// Stores `value` under `key`. A key already present has its value replaced in
    /// place, and the old value comes back. A new key is placed by displacement; the
    /// table first grows when it is half full, and grows, to at most
    /// `MAX_RESIZE_ATTEMPTS` larger capacities, when a displacement chain fails.
    /// When none of them holds the keys the result is `ResizeExhausted` and the
    /// stored map is unchanged.
    pub fn insert(&mut self, key: K, value: V) -> (r: Result<Option<V>, TableError>)
        requires
            old(self).wf(),
        ensures
            final(self).wf(),
            old(self)@.contains_key(key.spec_cuckoo_hash()) ==> r == Ok::<Option<V>, TableError>(
                Some(old(self)@[key.spec_cuckoo_hash()]),
            ) && final(self)@ == old(self)@.insert(key.spec_cuckoo_hash(), value)
                && final(self).spec_capacity() == old(self).spec_capacity(),
            !old(self)@.contains_key(key.spec_cuckoo_hash()) ==> (r == Ok::<Option<V>, TableError>(None)
                && final(self)@ == old(self)@.insert(key.spec_cuckoo_hash(), value)) || (r
                == Err::<Option<V>, TableError>(TableError::ResizeExhausted) && final(self)@ == old(self)@),
            !old(self)@.contains_key(key.spec_cuckoo_hash()) && old(self).places_without_growth(key.spec_cuckoo_hash()) ==> r == Ok::<
                Option<V>,
                TableError,
            >(None) && final(self).spec_capacity() == old(self).spec_capacity(),
            old(self)@.len() == 0 ==> r == Ok::<Option<V>, TableError>(None),
            2 * final(self)@.len() <= final(self).spec_capacity(),
            final(self).spec_capacity() >= old(self).spec_capacity(),
    {
        let hk = key.cuckoo_hash();
        if let Some(i) = self.find(hk) {
            let ghost s0 = self.elements@;
            let ghost m0 = self.contents@;
            let ghost v = value;
            let mut slot: Option<Nest<K, V>> = None;
            self.elements.set_and_swap(i, &mut slot);
            let mut n = slot.unwrap();
            let mut prev = value;
            std::mem::swap(&mut n.obj, &mut prev);
            self.elements.set(i, Some(n));
            self.contents = Ghost(m0.insert(hk, v));
            proof {
                let s = self.elements@;
                let m = self.contents@;
                assert(m.len() == m0.len()) by {
                    assert(m.dom() =~= m0.dom());
                }
                assert forall|j: int| #![trigger s[j]] 0 <= j < s.len() && s[j] is Some && j != i implies s[j]->Some_0.hash
                    != hk by {
                    assert(s0[j] is Some && s0[i as int] is Some);
                }
                assert forall|k: u64| #[trigger] m.contains_key(k) implies slot_has(s, self.wu_hash_1.spec_eval(k) as int, k)
                    || slot_has(s, self.wu_hash_2.spec_eval(k) as int, k) by {
                    assert(m0.contains_key(k));
                }
                assert forall|a: int, b: int|
                    #![trigger s[a], s[b]]
                    0 <= a < s.len() && 0 <= b < s.len() && s[a] is Some && s[b] is Some && s[a]->Some_0.hash
                        == s[b]->Some_0.hash implies a == b by {
                    assert(s0[a] is Some && s0[b] is Some);
                }
            }
            return Ok(Some(prev));
        }
        let ghost m0 = self.contents@;
        proof {
            if m0.len() == 0 {
                let i1 = self.wu_hash_1.spec_eval(hk) as int;
                if self.elements@[i1] is Some {
                    assert(m0.contains_key(self.elements@[i1]->Some_0.hash));
                }
                assert(layout_of(self.elements@)[i1] is None);
                assert(self.places_without_growth(hk));
            }
        }
        let ghost n0 = Nest { hash_used: HashChoice::First, hash: hk, key, obj: value };
        let mut pending = Nest { hash_used: HashChoice::First, hash: hk, key, obj: value };
        let mut target: u64 = self.internal_size;
        let mut attempts: u64 = 0;
        loop
            invariant
                self.wf(),
                self.contents@ == m0,
                old(self)@ == m0,
                !m0.contains_key(hk),
                pending == n0,
                n0.hash == hk,
                hk == n0.key.spec_cuckoo_hash(),
                hk == key.spec_cuckoo_hash(),
                n0.obj == value,
                self.internal_size <= target <= MAX_CAPACITY,
                old(self).internal_size <= self.internal_size,
                attempts <= MAX_RESIZE_ATTEMPTS,
                attempts == 0 ==> *self == *old(self),
                attempts > 0 ==> !old(self).places_without_growth(hk),
            decreases MAX_RESIZE_ATTEMPTS - attempts,
        {
            if 2 * (self.count + 1) <= self.internal_size {
                match self.try_place(pending) {
                    Ok(()) => {
                        return Ok(None);
                    },
                    Err(p) => {
                        pending = p;
                    },
                }
            }
            if attempts >= MAX_RESIZE_ATTEMPTS || target > MAX_CAPACITY / 2 {
                return Err(TableError::ResizeExhausted);
            }
            attempts = attempts + 1;
            target = 2 * target;
            self.resize(target);
        }
    }

    /// The slot that holds projection `hk`, if any: one of its two candidates.
    fn find(&self, hk: u64) -> (r: Option<usize>)
        requires
            self.wf(),
        ensures
            r is None <==> !self@.contains_key(hk),
            r is Some ==> slot_has(self.elements@, r->Some_0 as int, hk),
    {
        let i1 = self.wu_hash_1.eval(hk);
        if let Some(n) = &self.elements[i1] {
            if n.hash == hk {
                return Some(i1);
            }
        }
        let i2 = self.wu_hash_2.eval(hk);
        if let Some(n) = &self.elements[i2] {
            if n.hash == hk {
                return Some(i2);
            }
        }
        None
    }

    /// The value stored under `key`, if any.
    pub fn get(&self, key: &K) -> (r: Option<&V>)
        requires
            self.wf(),
        ensures
            r is Some <==> self@.contains_key(key.spec_cuckoo_hash()),
            r is Some ==> *r->Some_0 == self@[key.spec_cuckoo_hash()],
    {
        let hk = key.cuckoo_hash();
        match self.find(hk) {
            Some(i) => match &self.elements[i] {
                Some(n) => Some(&n.obj),
                None => None,
            },
            None => None,
        }
    }

    /// Removes `key`, returning its value if it was stored.
    pub fn remove(&mut self, key: &K) -> (r: Option<V>)
        requires
            old(self).wf(),
        ensures
            final(self).wf(),
            final(self)@ == old(self)@.remove(key.spec_cuckoo_hash()),
            final(self).spec_capacity() == old(self).spec_capacity(),
            r is Some <==> old(self)@.contains_key(key.spec_cuckoo_hash()),
            r is Some ==> r->Some_0 == old(self)@[key.spec_cuckoo_hash()],
    {
        let hk = key.cuckoo_hash();
        match self.find(hk) {
            None => {
                assert(self.contents@.remove(hk) =~= self.contents@);
                None
            },
            Some(i) => {
                let ghost s0 = self.elements@;
                let ghost m0 = self.contents@;
                let mut slot: Option<Nest<K, V>> = None;
                self.elements.set_and_swap(i, &mut slot);
                let n = slot.unwrap();
                self.count = self.count - 1;
                self.contents = Ghost(m0.remove(hk));
                proof {
                    let s = self.elements@;
                    let m = self.contents@;
                    assert forall|j: int| 0 <= j < s.len() && (#[trigger] s[j]) is Some implies s[j]->Some_0.hash != hk by {
                        assert(s0[j] is Some && s0[i as int] is Some);
                    }
                    assert forall|k: u64| #[trigger] m.contains_key(k) implies slot_has(s, self.wu_hash_1.spec_eval(k) as int, k) || slot_has(s, self.wu_hash_2.spec_eval(k) as int, k) by {
                        assert(m0.contains_key(k));
                    }
                }
                Some(n.obj)
            },
        }
    }
}

/// A valid table is at most half full.
pub proof fn lemma_half_load<K: CuckooHashable, V>(t: CuckooHash<K, V>)
    requires
        t.wf(),
    ensures
        2 * t@.len() <= t.spec_capacity(),
{
}

/// Looking up a key right after inserting it with value `v` finds `v`, whatever the
/// insertion did to the capacity.
pub proof fn lemma_insert_then_get<K: CuckooHashable, V>(before: CuckooHash<K, V>, after: CuckooHash<K, V>, key: K, v: V)
    requires
        before.wf(),
        after.wf(),
        after@ == before@.insert(key.spec_cuckoo_hash(), v),
    ensures
        after.spec_get(key.spec_cuckoo_hash()) == Some(v),
{
}

/// Inserting a key twice keeps the second value, and the second insertion leaves
/// the number of keys as the first left it.
pub proof fn lemma_overwrite<K: CuckooHashable, V>(
    t0: CuckooHash<K, V>,
    t1: CuckooHash<K, V>,
    t2: CuckooHash<K, V>,
    key: K,
    v1: V,
    v2: V,
)
    requires
        t0.wf(),
        t1.wf(),
        t2.wf(),
        t1@ == t0@.insert(key.spec_cuckoo_hash(), v1),
        t2@ == t1@.insert(key.spec_cuckoo_hash(), v2),
    ensures
        t2.spec_get(key.spec_cuckoo_hash()) == Some(v2),
        t2@.len() == t1@.len(),
{
    assert(t2@.dom() =~= t1@.dom());
}

/// After a key is removed a lookup finds nothing; removing an absent key changes
/// neither the map nor the number of keys.
pub proof fn lemma_remove_then_get<K: CuckooHashable, V>(before: CuckooHash<K, V>, after: CuckooHash<K, V>, key: K)
    requires
        before.wf(),
        after.wf(),
        after@ == before@.remove(key.spec_cuckoo_hash()),
    ensures
        after.spec_get(key.spec_cuckoo_hash()) is None,
        !before@.contains_key(key.spec_cuckoo_hash()) ==> after@ == before@ && after@.len() == before@.len(),
{
    if !before@.contains_key(key.spec_cuckoo_hash()) {
        assert(after@ =~= before@);
    }
}

/// The map that a run of successful insertions of `s`, in order, leaves behind `m`.
pub open spec fn insert_all<V>(m: Map<u64, V>, s: Seq<(u64, V)>) -> Map<u64, V>
    decreases s.len(),
{
    if s.len() == 0 {
        m
    } else {
        insert_all(m, s.drop_last()).insert(s.last().0, s.last().1)
    }
}

/// The keys that `s` writes.
pub open spec fn keys_of<V>(s: Seq<(u64, V)>) -> Set<u64> {
    Set::new(|k: u64| exists|i: int| 0 <= i < s.len() && s[i].0 == k)
}

/// After a run of insertions into an empty table, whatever resizes it caused, the
/// stored keys are exactly the distinct keys written, so their number is the number
/// of keys, and each holds the value that was written to it last.
pub proof fn lemma_insert_all<V>(s: Seq<(u64, V)>)
    ensures
        insert_all(Map::<u64, V>::empty(), s).dom() == keys_of(s),
        insert_all(Map::<u64, V>::empty(), s).len() == keys_of(s).len(),
        forall|i: int|
            0 <= i < s.len() && (forall|j: int| i < j < s.len() ==> s[j].0 != s[i].0) ==> #[trigger] insert_all(
                Map::<u64, V>::empty(),
                s,
            )[s[i].0] == s[i].1,
    decreases s.len(),
{
    let m = insert_all(Map::<u64, V>::empty(), s);
    if s.len() > 0 {
        let p = s.drop_last();
        lemma_insert_all(p);
        assert forall|k: u64| m.dom().contains(k) <==> keys_of(s).contains(k) by {
            if keys_of(s).contains(k) && k != s.last().0 {
                let i = choose|i: int| 0 <= i < s.len() && s[i].0 == k;
                assert(p[i].0 == k);
                assert(keys_of(p).contains(k));
            }
            if keys_of(p).contains(k) {
                let i = choose|i: int| 0 <= i < p.len() && p[i].0 == k;
                assert(s[i].0 == k);
            }
            if k == s.last().0 {
                assert(s[s.len() - 1].0 == k);
            }
        }
        assert(m.dom() =~= keys_of(s));
        assert forall|i: int|
            0 <= i < s.len() && (forall|j: int| i < j < s.len() ==> s[j].0 != s[i].0) implies #[trigger] m[s[i].0]
            == s[i].1 by {
            if i < s.len() - 1 {
                assert(s[s.len() - 1].0 != s[i].0);
                assert(p[i] == s[i]);
                assert forall|j: int| i < j < p.len() implies p[j].0 != p[i].0 by {
                    assert(p[j] == s[j]);
                }
            }
        }
    } else {
        assert(m.dom() =~= keys_of(s));
    }
}

} // verus!
