//! Fragments, and their reassembly into the bytes of the file by id.
use vstd::prelude::*;
use crate::checksum::{checksum, crc32_of};
use crate::plan::concat;

verus! {

/// One chunk of a file with its ordinal and the checksum of its payload.
pub struct Fragment {
    pub id: u32,
    pub payload: Vec<u8>,
    pub checksum: u32,
}

impl Fragment {
    /// The fragment `id` carrying `payload`, its checksum computed here.
    pub fn new(id: u32, payload: Vec<u8>) -> (r: Fragment)
        ensures
            r.id == id,
            r.payload@ == payload@,
            r.checksum == crc32_of(payload@),
    {
        let c = checksum(payload.as_slice());
        Fragment { id, payload, checksum: c }
    }
}

/// Why a set of fragments does not make a whole file.
#[derive(Debug, Clone, Copy, PartialEq, Eq, Structural)]
pub enum ReassemblyError {
    /// A fragment carries an id at or past the expected chunk count.
    IdOutOfRange { id: u32 },
    /// Two fragments carry the same id.
    DuplicateId { id: u32 },
    /// No fragment carries this id.
    MissingId { id: u32 },
}

/// What reassembly reads of a fragment: its id and its payload.
pub open spec fn piece_of(f: Fragment) -> (u32, Seq<u8>) {
    (f.id, f.payload@)
}

/// The id and payload of each fragment, in the order given.
pub open spec fn pieces(frags: Seq<Fragment>) -> Seq<(u32, Seq<u8>)> {
    frags.map_values(|f: Fragment| piece_of(f))
}

/// Whether the ids of `ps` are exactly `0..n`, each once.
pub open spec fn ids_complete(ps: Seq<(u32, Seq<u8>)>, n: nat) -> bool {
    &&& forall|k: int| 0 <= k < ps.len() ==> (#[trigger] ps[k]).0 < n
    &&& forall|j: int, k: int|
        0 <= j < ps.len() && 0 <= k < ps.len() && j != k ==> (#[trigger] ps[j]).0 != (
        #[trigger] ps[k]).0
    &&& forall|i: int| 0 <= i < n ==> #[trigger] has_id(ps, i)
}

/// Whether some piece of `ps` carries id `i`.
pub open spec fn has_id(ps: Seq<(u32, Seq<u8>)>, i: int) -> bool {
    exists|k: int| 0 <= k < ps.len() && (#[trigger] ps[k]).0 == i
}

/// The payload of the piece of `ps` that carries id `i`.
pub open spec fn payload_with_id(ps: Seq<(u32, Seq<u8>)>, i: int) -> Seq<u8> {
    ps[choose|k: int| 0 <= k < ps.len() && (#[trigger] ps[k]).0 == i].1
}

/// The payloads of ids `0..n` one after the other.
pub open spec fn assembled(ps: Seq<(u32, Seq<u8>)>, n: nat) -> Seq<u8> {
    concat(Seq::new(n, |i: int| payload_with_id(ps, i)))
}

/// Whether `b` holds the pieces of `a` in the order that `perm` gives:
/// `b[j]` is `a[perm[j]]`, and `perm` is a bijection of the indices.
pub open spec fn is_reordering(
    a: Seq<(u32, Seq<u8>)>,
    b: Seq<(u32, Seq<u8>)>,
    perm: Seq<int>,
) -> bool {
    &&& a.len() == b.len() && perm.len() == b.len()
    &&& forall|j: int| 0 <= j < b.len() ==> 0 <= #[trigger] perm[j] < a.len() && b[j] == a[perm[j]]
    &&& forall|j: int, k: int|
        0 <= j < b.len() && 0 <= k < b.len() && j != k ==> #[trigger] perm[j] != #[trigger] perm[k]
    &&& forall|i: int| 0 <= i < a.len() ==> #[trigger] reaches(perm, i)
}

/// Whether some entry of `perm` is `i`.
pub open spec fn reaches(perm: Seq<int>, i: int) -> bool {
    exists|j: int| 0 <= j < perm.len() && #[trigger] perm[j] == i
}

/// Where ids are distinct, the piece found for id `i` is the one at `k`.
pub proof fn lemma_payload_with_id(ps: Seq<(u32, Seq<u8>)>, n: nat, k: int)
    requires
        ids_complete(ps, n),
        0 <= k < ps.len(),
    ensures
        payload_with_id(ps, ps[k].0 as int) == ps[k].1,
{
    let i = ps[k].0 as int;
    assert(0 <= k < ps.len() && ps[k].0 == i);
    let c = choose|c: int| 0 <= c < ps.len() && (#[trigger] ps[c]).0 == i;
    assert(ps[c].0 == ps[k].0);
}

/// Reassembly does not depend on the order in which fragments arrived: any
/// reordering of the same fragments is complete exactly when the first order is,
/// and then gives the same bytes.
pub proof fn lemma_reassembly_order_independent(
    a: Seq<(u32, Seq<u8>)>,
    b: Seq<(u32, Seq<u8>)>,
    perm: Seq<int>,
    n: nat,
)
    requires
        is_reordering(a, b, perm),
    ensures
        ids_complete(a, n) == ids_complete(b, n),
        ids_complete(a, n) ==> assembled(a, n) == assembled(b, n),
{
    if ids_complete(a, n) {
        assert forall|i: int| 0 <= i < n implies #[trigger] has_id(b, i) by {
            assert(has_id(a, i));
            let k = choose|k: int| 0 <= k < a.len() && (#[trigger] a[k]).0 == i;
            assert(reaches(perm, k));
            let j = choose|j: int| 0 <= j < b.len() && #[trigger] perm[j] == k;
            assert(b[j].0 == i);
        }
        assert forall|j: int, k: int|
            0 <= j < b.len() && 0 <= k < b.len() && j != k implies (#[trigger] b[j]).0 != (
            #[trigger] b[k]).0 by {
            assert(perm[j] != perm[k]);
            assert(b[j] == a[perm[j]] && b[k] == a[perm[k]]);
        }
        assert forall|k: int| 0 <= k < b.len() implies (#[trigger] b[k]).0 < n by {
            assert(b[k] == a[perm[k]]);
        }
        assert(ids_complete(b, n));
        assert forall|i: int| 0 <= i < n implies payload_with_id(a, i) == #[trigger] payload_with_id(b, i) by {
            assert(has_id(b, i));
            let j = choose|j: int| 0 <= j < b.len() && (#[trigger] b[j]).0 == i;
            lemma_payload_with_id(b, n, j);
            lemma_payload_with_id(a, n, perm[j]);
            assert(b[j] == a[perm[j]]);
        }
        assert(Seq::new(n, |i: int| payload_with_id(a, i)) =~= Seq::new(
            n,
            |i: int| payload_with_id(b, i),
        ));
    }
    if ids_complete(b, n) {
        assert forall|i: int| 0 <= i < n implies #[trigger] has_id(a, i) by {
            assert(has_id(b, i));
            let j = choose|j: int| 0 <= j < b.len() && (#[trigger] b[j]).0 == i;
            assert(a[perm[j]].0 == i);
        }
        assert forall|j: int, k: int|
            0 <= j < a.len() && 0 <= k < a.len() && j != k implies (#[trigger] a[j]).0 != (
            #[trigger] a[k]).0 by {
            assert(reaches(perm, j) && reaches(perm, k));
            let jj = choose|x: int| 0 <= x < b.len() && #[trigger] perm[x] == j;
            let kk = choose|x: int| 0 <= x < b.len() && #[trigger] perm[x] == k;
            assert(b[jj] == a[j] && b[kk] == a[k]);
        }
        assert forall|k: int| 0 <= k < a.len() implies (#[trigger] a[k]).0 < n by {
            assert(reaches(perm, k));
            let kk = choose|x: int| 0 <= x < b.len() && #[trigger] perm[x] == k;
            assert(b[kk] == a[k]);
        }
    }
}

/// The payloads of `frags` in ascending id order, when their ids are exactly
/// `0..expected`; otherwise which id breaks that.
pub fn reassemble(frags: &Vec<Fragment>, expected: u32) -> (r: Result<Vec<u8>, ReassemblyError>)
    ensures
        r is Ok <==> ids_complete(pieces(frags@), expected as nat),
        r matches Ok(out) ==> out@ == assembled(pieces(frags@), expected as nat),
        r matches Err(ReassemblyError::IdOutOfRange { id }) ==> id >= expected && exists|k: int|
            0 <= k < frags@.len() && (#[trigger] frags@[k]).id == id,
        r matches Err(ReassemblyError::DuplicateId { id }) ==> exists|j: int, k: int|
            0 <= j < k < frags@.len() && (#[trigger] frags@[j]).id == id && (
            #[trigger] frags@[k]).id == id,
        r matches Err(ReassemblyError::MissingId { id }) ==> id < expected && forall|k: int|
            0 <= k < frags@.len() ==> (#[trigger] frags@[k]).id != id,
{
    let n = expected as usize;
    let ghost ps = pieces(frags@);
    let mut slots: Vec<Option<usize>> = Vec::new();
    let mut i: usize = 0;
    while i < n
        invariant
            i <= n,
            slots@.len() == i,
            forall|x: int| 0 <= x < i ==> slots@[x] is None,
        decreases n - i,
    {
        slots.push(None);
        i = i + 1;
    }
    let mut k: usize = 0;
    while k < frags.len()
        invariant
            n == expected,
            ps == pieces(frags@),
            k <= frags@.len(),
            slots@.len() == n,
            forall|x: int|
                0 <= x < n ==> (#[trigger] slots@[x] matches Some(c) ==> c < k && frags@[c as int].id
                    == x),
            forall|c: int|
                0 <= c < k ==> (#[trigger] frags@[c]).id < n && slots@[frags@[c].id as int] == Some(
                    c as usize,
                ),
        decreases frags@.len() - k,
    {
        let id = frags[k].id;
        if id as usize >= n {
            assert(ps[k as int].0 == id);
            return Err(ReassemblyError::IdOutOfRange { id });
        }
        match slots[id as usize] {
            Some(j) => {
                assert(frags@[j as int].id == id);
                assert(ps[j as int].0 == ps[k as int].0);
                return Err(ReassemblyError::DuplicateId { id });
            },
            None => {},
        }
        slots.set(id as usize, Some(k));
        k = k + 1;
    }
    proof {
        assert forall|j: int, c: int|
            0 <= j < ps.len() && 0 <= c < ps.len() && j != c implies (#[trigger] ps[j]).0 != (
            #[trigger] ps[c]).0 by {
            assert(frags@[j].id < n && frags@[c].id < n);
        }
        assert forall|c: int| 0 <= c < ps.len() implies (#[trigger] ps[c]).0 < n by {
            assert(frags@[c].id < n);
        }
    }
    let mut out: Vec<u8> = Vec::new();
    let mut i: usize = 0;
    while i < n
        invariant
            n == expected,
            ps == pieces(frags@),
            slots@.len() == n,
            i <= n,
            forall|x: int|
                0 <= x < n ==> (#[trigger] slots@[x] matches Some(c) ==> c < frags@.len()
                    && frags@[c as int].id == x),
            forall|c: int|
                0 <= c < frags@.len() ==> (#[trigger] frags@[c]).id < n && slots@[frags@[c].id as int]
                    == Some(c as usize),
            forall|x: int| 0 <= x < i ==> #[trigger] has_id(ps, x),
            forall|j: int, c: int|
                0 <= j < ps.len() && 0 <= c < ps.len() && j != c ==> (#[trigger] ps[j]).0 != (
                #[trigger] ps[c]).0,
            forall|c: int| 0 <= c < ps.len() ==> (#[trigger] ps[c]).0 < n,
            out@ == concat(Seq::new(i as nat, |x: int| payload_with_id(ps, x))),
        decreases n - i,
    {
        match slots[i] {
            None => {
                proof {
                    assert forall|c: int| 0 <= c < frags@.len() implies (#[trigger] frags@[c]).id
                        != i by {
                        if frags@[c].id == i {
                            assert(slots@[i as int] == Some(c as usize));
                        }
                    }
                    assert(!has_id(ps, i as int));
                }
                return Err(ReassemblyError::MissingId { id: i as u32 });
            },
            Some(c) => {
                proof {
                    assert(ps[c as int].0 == i);
                    assert(has_id(ps, i as int));
                    assert(payload_with_id(ps, i as int) == ps[c as int].1) by {
                        let w = choose|w: int| 0 <= w < ps.len() && (#[trigger] ps[w]).0 == i;
                        assert(ps[w].0 == ps[c as int].0);
                    }
                    assert(Seq::new(i as nat + 1, |x: int| payload_with_id(ps, x)).drop_last()
                        =~= Seq::new(i as nat, |x: int| payload_with_id(ps, x)));
                }
                let mut i2: usize = 0;
                let ghost before = out@;
                let p = &frags[c].payload;
                while i2 < p.len()
                    invariant
                        i2 <= p@.len(),
                        out@ == before + p@.subrange(0, i2 as int),
                    decreases p@.len() - i2,
                {
                    out.push(p[i2]);
                    i2 = i2 + 1;
                    assert(out@ =~= before + p@.subrange(0, i2 as int));
                }
                assert(p@.subrange(0, p@.len() as int) =~= p@);
            },
        }
        i = i + 1;
    }
    Ok(out)
}

} // verus!
