//! Switching the region marker of the client's region-settings text.
use vstd::prelude::*;

verus! {

/// The bytes of `region: "NA"`.
pub open spec fn na_marker() -> Seq<u8> {
    seq![114u8, 101, 103, 105, 111, 110, 58, 32, 34, 78, 65, 34]
}

/// The bytes of `region: "LA1"`.
pub open spec fn la1_marker() -> Seq<u8> {
    seq![114u8, 101, 103, 105, 111, 110, 58, 32, 34, 76, 65, 49, 34]
}

/// `s` holds the pattern `p` starting at index `i`.
pub open spec fn occurs_at(s: Seq<u8>, p: Seq<u8>, i: int) -> bool {
    0 <= i && i + p.len() <= s.len() && s.subrange(i, i + p.len()) == p
}

/// `s` holds the pattern `p` somewhere.
pub open spec fn contains(s: Seq<u8>, p: Seq<u8>) -> bool {
    exists|i: int| occurs_at(s, p, i)
}

/// The first index at or after `k` where `p` occurs in `s`.
pub open spec fn find_from(s: Seq<u8>, p: Seq<u8>, k: nat) -> Option<nat>
    decreases s.len() + 1 - k,
{
    if k + p.len() > s.len() {
        None
    } else if occurs_at(s, p, k as int) {
        Some(k)
    } else {
        find_from(s, p, k + 1)
    }
}

/// The index of the first occurrence of `p` in `s`.
pub open spec fn find(s: Seq<u8>, p: Seq<u8>) -> Option<nat> {
    find_from(s, p, 0)
}

/// `s` with the `len` bytes from index `i` replaced by `q`.
pub open spec fn splice(s: Seq<u8>, i: int, len: int, q: Seq<u8>) -> Seq<u8> {
    s.subrange(0, i) + q + s.subrange(i + len, s.len() as int)
}

/// `s` with the first occurrence of `p` replaced by `q`; `s` itself where
/// `p` does not occur.
pub open spec fn replace_first(s: Seq<u8>, p: Seq<u8>, q: Seq<u8>) -> Seq<u8> {
    match find(s, p) {
        Some(i) => splice(s, i as int, p.len() as int, q),
        None => s,
    }
}

/// The region text after a swap: the first `region: "NA"` becomes
/// `region: "LA1"`; failing that, the first `region: "LA1"` becomes
/// `region: "NA"`; failing both, the text is unchanged.
pub open spec fn swapped_region(s: Seq<u8>) -> Seq<u8> {
    if contains(s, na_marker()) {
        replace_first(s, na_marker(), la1_marker())
    } else {
        replace_first(s, la1_marker(), na_marker())
    }
}

/// What `find_from` returns is an occurrence, and the first one from `k` on.
pub proof fn lemma_find_from(s: Seq<u8>, p: Seq<u8>, k: nat)
    ensures
        match find_from(s, p, k) {
            Some(i) => k <= i && occurs_at(s, p, i as int) && forall|j: int|
                k <= j < i ==> !occurs_at(s, p, j),
            None => forall|j: int| k <= j ==> !occurs_at(s, p, j),
        },
    decreases s.len() + 1 - k,
{
    if k + p.len() > s.len() {
    } else if occurs_at(s, p, k as int) {
    } else {
        lemma_find_from(s, p, k + 1);
    }
}

/// `find` gives the first occurrence, and gives none exactly when there is none.
pub proof fn lemma_find(s: Seq<u8>, p: Seq<u8>)
    ensures
        find(s, p) is None <==> !contains(s, p),
        find(s, p) matches Some(i) ==> occurs_at(s, p, i as int) && forall|j: int|
            0 <= j < i ==> !occurs_at(s, p, j),
{
    lemma_find_from(s, p, 0);
    if let Some(i) = find(s, p) {
        assert(occurs_at(s, p, i as int));
    }
}

/// Where the text holds neither marker, a swap leaves it byte for byte as it was.
pub proof fn lemma_swap_region_without_marker(s: Seq<u8>)
    requires
        !contains(s, na_marker()),
        !contains(s, la1_marker()),
    ensures
        swapped_region(s) == s,
{
    lemma_find(s, la1_marker());
}

/// The bytes of a spliced sequence, by where they come from.
proof fn lemma_splice_index(s: Seq<u8>, i: int, len: int, q: Seq<u8>)
    requires
        0 <= i,
        0 <= len,
        i + len <= s.len(),
    ensures
        splice(s, i, len, q).len() == s.len() - len + q.len(),
        forall|k: int| 0 <= k < i ==> #[trigger] splice(s, i, len, q)[k] == s[k],
        forall|k: int|
            i <= k < i + q.len() ==> #[trigger] splice(s, i, len, q)[k] == q[k - i],
        forall|k: int|
            i + q.len() <= k < s.len() - len + q.len() ==> #[trigger] splice(s, i, len, q)[k]
                == s[k - q.len() + len],
{
}

/// Both markers start with the byte `r`, and hold it nowhere else.
proof fn lemma_marker_first_byte()
    ensures
        na_marker()[0] == 114 && la1_marker()[0] == 114,
        forall|k: int| 0 < k < 12 ==> #[trigger] na_marker()[k] != 114,
        forall|k: int| 0 < k < 13 ==> #[trigger] la1_marker()[k] != 114,
{
    let na = na_marker();
    let la1 = la1_marker();
    assert forall|k: int| 0 < k < 13 implies la1[k] != 114 && (k < 12 ==> na[k] != 114) by {
        if k == 1 {
        } else if k == 2 {
        } else if k == 3 {
        } else if k == 4 {
        } else if k == 5 {
        } else if k == 6 {
        } else if k == 7 {
        } else if k == 8 {
        } else if k == 9 {
        } else if k == 10 {
        } else if k == 11 {
        } else {
        }
    }
}

/// Replacing the only `region: "NA"` by `region: "LA1"` leaves no `region: "NA"`.
proof fn lemma_no_na_after_swap(s: Seq<u8>, i: int)
    requires
        occurs_at(s, na_marker(), i),
        forall|j: int| occurs_at(s, na_marker(), j) ==> j == i,
    ensures
        !contains(splice(s, i, 12, la1_marker()), na_marker()),
{
    let na = na_marker();
    let la1 = la1_marker();
    let r1 = splice(s, i, 12, la1);
    lemma_splice_index(s, i, 12, la1);
    assert forall|j: int| !occurs_at(r1, na, j) by {
        if occurs_at(r1, na, j) {
            let w = r1.subrange(j, j + 12);
            if j + 12 <= i {
                assert(s.subrange(j, j + 12) =~= w);
                assert(occurs_at(s, na, j));
            } else if j >= i + 13 {
                assert(s.subrange(j - 1, j + 11) =~= w);
                assert(occurs_at(s, na, j - 1));
            } else if j <= i {
                assert(w[i - j] == r1[i]);
                assert(w[9] == r1[j + 9]);
            } else {
                assert(w[0] == r1[j]);
            }
        }
    }
}

/// After that replacement, the first `region: "LA1"` is the one put in.
proof fn lemma_first_la1_after_swap(s: Seq<u8>, i: int)
    requires
        occurs_at(s, na_marker(), i),
        forall|j: int| 0 <= j < i ==> !occurs_at(s, la1_marker(), j),
    ensures
        find(splice(s, i, 12, la1_marker()), la1_marker()) == Some(i as nat),
{
    let la1 = la1_marker();
    let r1 = splice(s, i, 12, la1);
    lemma_splice_index(s, i, 12, la1);
    lemma_marker_first_byte();
    assert(r1.subrange(i, i + 13) =~= la1);
    assert(occurs_at(r1, la1, i));
    assert forall|j: int| 0 <= j < i implies !occurs_at(r1, la1, j) by {
        if occurs_at(r1, la1, j) {
            let w = r1.subrange(j, j + 13);
            if j + 13 <= i {
                assert(s.subrange(j, j + 13) =~= w);
                assert(occurs_at(s, la1, j));
            } else {
                assert(w[i - j] == r1[i]);
                assert(la1[i - j] != 114);
            }
        }
    }
    lemma_find(r1, la1);
    match find(r1, la1) {
        Some(f) => {
            assert(!(i < f));
            assert(!(f < i));
        },
        None => {
            assert(contains(r1, la1));
        },
    }
}

/// Where the text holds `region: "NA"` exactly once, and no `region: "LA1"`
/// before it, one swap gives a text with `region: "LA1"` and without
/// `region: "NA"`, and a second swap gives back the text it started from.
pub proof fn lemma_swap_region_involution(s: Seq<u8>)
    requires
        exists|i: int|
            #![trigger occurs_at(s, na_marker(), i)]
            occurs_at(s, na_marker(), i) && (forall|j: int|
                occurs_at(s, na_marker(), j) ==> j == i) && (forall|j: int|
                0 <= j < i ==> !occurs_at(s, la1_marker(), j)),
    ensures
        contains(swapped_region(s), la1_marker()),
        !contains(swapped_region(s), na_marker()),
        swapped_region(swapped_region(s)) == s,
{
    let na = na_marker();
    let la1 = la1_marker();
    let i = choose|i: int|
        #![trigger occurs_at(s, na_marker(), i)]
        occurs_at(s, na_marker(), i) && (forall|j: int|
            occurs_at(s, na_marker(), j) ==> j == i) && (forall|j: int|
            0 <= j < i ==> !occurs_at(s, la1_marker(), j));
    lemma_find(s, na);
    let r1 = splice(s, i, 12, la1);
    assert(swapped_region(s) == r1);
    lemma_no_na_after_swap(s, i);
    lemma_first_la1_after_swap(s, i);
    lemma_find(r1, la1);
    lemma_splice_index(s, i, 12, la1);
    lemma_splice_index(r1, i, 13, na);
    assert(s.subrange(i, i + 12) == na);
    assert forall|k: int| i <= k < i + 12 implies s[k] == na[k - i] by {
        assert(s.subrange(i, i + 12)[k - i] == s[k]);
    }
    assert(splice(r1, i, 13, na) =~= s);
}

fn na_bytes() -> (r: Vec<u8>)
    ensures
        r@ == na_marker(),
{
    let r: Vec<u8> = vec![114u8, 101, 103, 105, 111, 110, 58, 32, 34, 78, 65, 34];
    assert(r@ =~= na_marker());
    r
}

fn la1_bytes() -> (r: Vec<u8>)
    ensures
        r@ == la1_marker(),
{
    let r: Vec<u8> = vec![114u8, 101, 103, 105, 111, 110, 58, 32, 34, 76, 65, 49, 34];
    assert(r@ =~= la1_marker());
    r
}

/// Whether `p` occurs in `s` at index `i`.
pub fn matches_at(s: &[u8], p: &[u8], i: usize) -> (r: bool)
    ensures
        r == occurs_at(s@, p@, i as int),
{
    if p.len() > s.len() || i > s.len() - p.len() {
        return false;
    }
    let mut j: usize = 0;
    while j < p.len()
        invariant
            i + p@.len() <= s@.len(),
            s@.len() <= usize::MAX,
            j <= p@.len(),
            s@.subrange(i as int, i + j) =~= p@.subrange(0, j as int),
        decreases p@.len() - j,
    {
        if s[i + j] != p[j] {
            assert(s@.subrange(i as int, i + p@.len())[j as int] != p@[j as int]);
            return false;
        }
        j = j + 1;
        assert(s@.subrange(i as int, i + j) =~= p@.subrange(0, j as int));
    }
    assert(p@.subrange(0, p@.len() as int) =~= p@);
    true
}

/// The index of the first occurrence of `p` in `s`.
pub fn find_first(s: &[u8], p: &[u8]) -> (r: Option<usize>)
    ensures
        match r {
            Some(i) => find(s@, p@) == Some(i as nat),
            None => find(s@, p@) is None,
        },
{
    if p.len() > s.len() {
        return None;
    }
    let last: usize = s.len() - p.len();
    let mut i: usize = 0;
    loop
        invariant
            i <= last,
            last + p@.len() == s@.len(),
            find(s@, p@) == find_from(s@, p@, i as nat),
        decreases last - i,
    {
        if matches_at(s, p, i) {
            return Some(i);
        }
        if i == last {
            assert(find_from(s@, p@, (i + 1) as nat) is None);
            return None;
        }
        i = i + 1;
    }
}

/// `s` with the `len` bytes from index `i` replaced by `q`.
pub fn splice_bytes(s: &[u8], i: usize, len: usize, q: &[u8]) -> (r: Vec<u8>)
    requires
        i + len <= s@.len(),
    ensures
        r@ == splice(s@, i as int, len as int, q@),
{
    let n: usize = s.len();
    let mut r: Vec<u8> = Vec::new();
    let mut k: usize = 0;
    while k < i
        invariant
            k <= i,
            i + len <= s@.len(),
            r@ =~= s@.subrange(0, k as int),
        decreases i - k,
    {
        r.push(s[k]);
        k = k + 1;
    }
    k = 0;
    while k < q.len()
        invariant
            k <= q@.len(),
            i + len <= s@.len(),
            s@.len() == n,
            r@ =~= s@.subrange(0, i as int) + q@.subrange(0, k as int),
        decreases q@.len() - k,
    {
        r.push(q[k]);
        k = k + 1;
    }
    k = i + len;
    while k < s.len()
        invariant
            i + len <= k <= s@.len(),
            r@ =~= s@.subrange(0, i as int) + q@ + s@.subrange(i + len, k as int),
        decreases s@.len() - k,
    {
        r.push(s[k]);
        k = k + 1;
    }
    r
}

/// `s` with the first occurrence of `p` replaced by `q`.
pub fn replace_first_bytes(s: &[u8], p: &[u8], q: &[u8]) -> (r: Vec<u8>)
    ensures
        r@ == replace_first(s@, p@, q@),
{
    proof {
        lemma_find(s@, p@);
    }
    match find_first(s, p) {
        Some(i) => splice_bytes(s, i, p.len(), q),
        None => {
            let mut r: Vec<u8> = Vec::new();
            let mut k: usize = 0;
            while k < s.len()
                invariant
                    k <= s@.len(),
                    r@ =~= s@.subrange(0, k as int),
                decreases s@.len() - k,
            {
                r.push(s[k]);
                k = k + 1;
            }
            r
        },
    }
}

/// Swaps the region marker of the region-settings text between
/// `region: "NA"` and `region: "LA1"`.
pub fn swap_region(content: &[u8]) -> (r: Vec<u8>)
    ensures
        r@ == swapped_region(content@),
        !contains(content@, na_marker()) && !contains(content@, la1_marker()) ==> r@ == content@,
{
    let na = na_bytes();
    let la1 = la1_bytes();
    proof {
        lemma_find(content@, na@);
        lemma_find(content@, la1@);
    }
    match find_first(content, na.as_slice()) {
        Some(_) => replace_first_bytes(content, na.as_slice(), la1.as_slice()),
        None => replace_first_bytes(content, la1.as_slice(), na.as_slice()),
    }
}

} // verus!
