use vstd::prelude::*;
use crate::error::{ErrorV, SpedError};

verus! {

/// A composite aggregation key: taxpayer-branch identifier, document-model
/// code, operation CFOP code.
pub struct CompositeKey {
    pub branch: Vec<u8>,
    pub model: Vec<u8>,
    pub cfop: Vec<u8>,
}

/// The mathematical form of a composite key.
pub type KeyV = (Seq<u8>, Seq<u8>, Seq<u8>);

impl View for CompositeKey {
    type V = KeyV;

    open spec fn view(&self) -> KeyV {
        (self.branch@, self.model@, self.cfop@)
    }
}

/// The index of the first pair keyed by `k`, or `-1` when none is.
pub open spec fn assoc_index<K, V>(s: Seq<(K, V)>, k: K) -> int
    decreases s.len(),
{
    if s.len() == 0 {
        -1
    } else if s[0].0 == k {
        0
    } else {
        let r = assoc_index(s.skip(1), k);
        if r == -1 {
            -1
        } else {
            1 + r
        }
    }
}

pub proof fn lemma_assoc_index<K, V>(s: Seq<(K, V)>, k: K)
    ensures
        -1 <= assoc_index(s, k) < s.len(),
        assoc_index(s, k) >= 0 ==> s[assoc_index(s, k)].0 == k && (forall|j: int|
            0 <= j < assoc_index(s, k) ==> s[j].0 != k),
        assoc_index(s, k) == -1 ==> (forall|j: int| 0 <= j < s.len() ==> s[j].0 != k),
    decreases s.len(),
{
    if s.len() > 0 && s[0].0 != k {
        lemma_assoc_index(s.skip(1), k);
        assert(forall|j: int| 1 <= j < s.len() ==> s[j] == s.skip(1)[j - 1]);
    }
}

/// Pins `assoc_index` down from a forward scan: no match strictly before
/// `i`, and a match at `i` when `i` is in range.
pub proof fn lemma_assoc_index_at<K, V>(s: Seq<(K, V)>, k: K, i: int)
    requires
        0 <= i <= s.len(),
        forall|j: int| 0 <= j < i ==> s[j].0 != k,
        i < s.len() ==> s[i].0 == k,
    ensures
        assoc_index(s, k) == if i < s.len() {
            i
        } else {
            -1
        },
    decreases i,
{
    if s.len() > 0 {
        if i == 0 {
            if s[0].0 != k {
                lemma_assoc_index(s, k);
            }
        } else {
            assert(forall|j: int| 1 <= j < s.len() ==> s[j] == s.skip(1)[j - 1]);
            lemma_assoc_index_at(s.skip(1), k, i - 1);
        }
    }
}

/// Byte-vector equality, decided byte by byte.
pub fn bytes_eq(a: &Vec<u8>, b: &Vec<u8>) -> (r: bool)
    ensures
        r == (a@ == b@),
{
    if a.len() != b.len() {
        return false;
    }
    let n = a.len();
    let mut j: usize = 0;
    while j < n
        invariant
            0 <= j <= n,
            a@.len() == n,
            b@.len() == n,
            forall|k: int| 0 <= k < j ==> a@[k] == b@[k],
        decreases n - j,
    {
        if a[j] != b[j] {
            return false;
        }
        j += 1;
    }
    proof {
        assert(a@ =~= b@);
    }
    true
}

/// A fresh byte vector with the same contents.
pub fn copy_bytes(v: &Vec<u8>) -> (r: Vec<u8>)
    ensures
        r@ == v@,
{
    let mut out: Vec<u8> = Vec::new();
    let n = v.len();
    let mut j: usize = 0;
    while j < n
        invariant
            0 <= j <= n,
            v@.len() == n,
            out@ == v@.take(j as int),
        decreases n - j,
    {
        out.push(v[j]);
        proof {
            assert(v@.take(j as int).push(v@[j as int]) =~= v@.take(j as int + 1));
        }
        j += 1;
    }
    proof {
        assert(v@.take(n as int) =~= v@);
    }
    out
}

pub fn key_eq(a: &CompositeKey, b: &CompositeKey) -> (r: bool)
    ensures
        r == (a@ == b@),
{
    let rb = bytes_eq(&a.branch, &b.branch);
    let rm = bytes_eq(&a.model, &b.model);
    let rc = bytes_eq(&a.cfop, &b.cfop);
    rb && rm && rc
}

pub fn copy_key(k: &CompositeKey) -> (r: CompositeKey)
    ensures
        r@ == k@,
{
    CompositeKey {
        branch: copy_bytes(&k.branch),
        model: copy_bytes(&k.model),
        cfop: copy_bytes(&k.cfop),
    }
}

/// The ICMS/IPI summary: composite keys mapped to summed fixed-point tax
/// values, first occurrence first.
pub struct CompositeMap {
    pub entries: Vec<(CompositeKey, u128)>,
}

impl View for CompositeMap {
    type V = Seq<(KeyV, int)>;

    open spec fn view(&self) -> Seq<(KeyV, int)> {
        self.entries@.map_values(|e: (CompositeKey, u128)| (e.0@, e.1 as int))
    }
}

/// The value summed under `k`, when `k` has a bucket.
pub open spec fn spec_lookup(s: Seq<(KeyV, int)>, k: KeyV) -> Option<int> {
    let i = assoc_index(s, k);
    if i == -1 {
        Option::None
    } else {
        Option::Some(s[i].1)
    }
}

/// Adding `v` into the bucket of `k`, creating the bucket at the end when it
/// is new; a bucket beyond the carrier type is an overflow error.
pub open spec fn spec_add_to(s: Seq<(KeyV, int)>, k: KeyV, v: int) -> Result<
    Seq<(KeyV, int)>,
    ErrorV,
> {
    let i = assoc_index(s, k);
    if i == -1 {
        Result::Ok(s.push((k, v)))
    } else if s[i].1 + v > u128::MAX {
        Result::Err(ErrorV::ValueOverflow)
    } else {
        Result::Ok(s.update(i, (k, s[i].1 + v)))
    }
}

impl CompositeMap {
    pub fn new() -> (r: CompositeMap)
        ensures
            r@ == Seq::<(KeyV, int)>::empty(),
    {
        let r = CompositeMap { entries: Vec::new() };
        proof {
            assert(r@ =~= Seq::<(KeyV, int)>::empty());
        }
        r
    }

    /// The index of `key`'s bucket, or the entry count when there is none.
    fn find(&self, key: &CompositeKey) -> (r: usize)
        ensures
            r <= self.entries@.len(),
            assoc_index(self@, key@) == if r < self.entries@.len() {
                r as int
            } else {
                -1
            },
            r < self.entries@.len() ==> self@[r as int].0 == key@,
    {
        let n = self.entries.len();
        let mut j: usize = 0;
        while j < n
            invariant
                0 <= j <= n,
                self.entries@.len() == n,
                forall|k: int| 0 <= k < j ==> self@[k].0 != key@,
            decreases n - j,
        {
            if key_eq(&self.entries[j].0, key) {
                proof {
                    lemma_assoc_index_at(self@, key@, j as int);
                }
                return j;
            }
            j += 1;
        }
        proof {
            lemma_assoc_index_at(self@, key@, n as int);
        }
        n
    }

    pub fn lookup(&self, key: &CompositeKey) -> (r: Option<u128>)
        ensures
            match r {
                Option::Some(v) => spec_lookup(self@, key@) == Option::Some(v as int),
                Option::None => spec_lookup(self@, key@) == Option::<int>::None,
            },
    {
        let i = self.find(key);
        if i < self.entries.len() {
            Option::Some(self.entries[i].1)
        } else {
            Option::None
        }
    }

    /// Adds `v` into the bucket of `key`, creating it when absent.
    pub fn add_to(&mut self, key: CompositeKey, v: u64) -> (r: Result<(), SpedError>)
        ensures
            match r {
                Result::Ok(()) => spec_add_to(old(self)@, key@, v as int) == Result::<
                    Seq<(KeyV, int)>,
                    ErrorV,
                >::Ok(final(self)@),
                Result::Err(e) => spec_add_to(old(self)@, key@, v as int) == Result::<
                    Seq<(KeyV, int)>,
                    ErrorV,
                >::Err(e@) && final(self)@ == old(self)@,
            },
    {
        let i = self.find(&key);
        if i < self.entries.len() {
            let cur = self.entries[i].1;
            if cur > u128::MAX - (v as u128) {
                return Result::Err(SpedError::ValueOverflow);
            }
            self.entries.set(i, (key, cur + v as u128));
            proof {
                assert(self@ =~= old(self)@.update(i as int, (old(self)@[i as int].0, cur as int
                    + v as int)));
            }
            Result::Ok(())
        } else {
            self.entries.push((key, v as u128));
            proof {
                assert(self@ =~= old(self)@.push((key@, v as int)));
            }
            Result::Ok(())
        }
    }
}

} // verus!
