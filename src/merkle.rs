use vstd::prelude::*;

verus! {

/// SHA-256 applied twice.
pub uninterp spec fn sha256d(msg: Seq<u8>) -> Seq<u8>;

/// Relies on bitcoin_hashes' `sha256d::Hash::hash`: SHA-256 applied twice to
/// the bytes, 32 bytes long.
#[verifier::external_body]
fn double_sha256(msg: &Vec<u8>) -> (r: [u8; 32])
    ensures
        r@ == sha256d(msg@),
{
    let h = <bitcoin_hashes::sha256d::Hash as bitcoin_hashes::Hash>::hash(msg.as_slice());
    bitcoin_hashes::Hash::into_inner(h)
}

/// The hashes of a level of the tree, as byte strings.
pub open spec fn hashes_view(v: Seq<[u8; 32]>) -> Seq<Seq<u8>> {
    v.map_values(|a: [u8; 32]| a@)
}

/// The right partner of pair `j` of a level: the last hash is paired with
/// itself where the level has an odd length.
pub open spec fn pair_right(level: Seq<Seq<u8>>, j: int) -> Seq<u8> {
    if 2 * j + 1 < level.len() {
        level[2 * j + 1]
    } else {
        level[2 * j]
    }
}

/// The level above: the hash of each pair.
pub open spec fn next_level(level: Seq<Seq<u8>>) -> Seq<Seq<u8>> {
    Seq::new(((level.len() + 1) / 2) as nat, |j: int| sha256d(level[2 * j] + pair_right(level, j)))
}

/// The root of the tree over a non-empty level.
pub open spec fn merkle_root(level: Seq<Seq<u8>>) -> Seq<u8>
    decreases level.len(),
{
    if level.len() <= 1 {
        level[0]
    } else {
        merkle_root(next_level(level))
    }
}

/// The hash that leaf `i` of a level is paired with.
pub open spec fn sibling(level: Seq<Seq<u8>>, i: int) -> Seq<u8> {
    if i % 2 == 0 {
        pair_right(level, i / 2)
    } else {
        level[i - 1]
    }
}

/// The siblings of leaf `i` from the bottom of the tree up.
pub open spec fn merkle_path(level: Seq<Seq<u8>>, i: int) -> Seq<Seq<u8>>
    decreases level.len(),
{
    if level.len() <= 1 {
        Seq::empty()
    } else {
        seq![sibling(level, i)] + merkle_path(next_level(level), i / 2)
    }
}

/// The root that a path leads to from `leaf` at position `i`.
pub open spec fn root_from_path(leaf: Seq<u8>, path: Seq<Seq<u8>>, i: int) -> Seq<u8>
    decreases path.len(),
{
    if path.len() == 0 {
        leaf
    } else {
        let up = if i % 2 == 0 {
            sha256d(leaf + path[0])
        } else {
            sha256d(path[0] + leaf)
        };
        root_from_path(up, path.drop_first(), i / 2)
    }
}

/// The path built for any transaction of a block leads from its id to the
/// block's Merkle root: a coin's proof checks against the root of the block
/// that confirmed it.
pub proof fn merkle_path_proves_root(level: Seq<Seq<u8>>, i: int)
    requires
        0 <= i < level.len(),
    ensures
        root_from_path(level[i], merkle_path(level, i), i) == merkle_root(level),
    decreases level.len(),
{
    if level.len() > 1 {
        let nl = next_level(level);
        let path = merkle_path(level, i);
        assert(path[0] == sibling(level, i));
        assert(path.drop_first() =~= merkle_path(nl, i / 2));
        if i % 2 == 0 {
            assert(2 * (i / 2) == i);
            assert(nl[i / 2] == sha256d(level[i] + sibling(level, i)));
        } else {
            assert(2 * (i / 2) == i - 1);
            assert(2 * (i / 2) + 1 == i);
            assert(nl[i / 2] == sha256d(level[i - 1] + level[i]));
        }
        merkle_path_proves_root(nl, i / 2);
    }
}

/// The 64 bytes of two hashes one after the other.
fn concat(a: &[u8; 32], b: &[u8; 32]) -> (r: Vec<u8>)
    ensures
        r@ == a@ + b@,
{
    let mut r: Vec<u8> = Vec::new();
    let mut k: usize = 0;
    while k < 32
        invariant
            k <= 32,
            r@ == a@.subrange(0, k as int),
        decreases 32 - k,
    {
        r.push(a[k]);
        assert(r@ =~= a@.subrange(0, (k + 1) as int));
        k = k + 1;
    }
    let mut k: usize = 0;
    while k < 32
        invariant
            k <= 32,
            r@ == a@ + b@.subrange(0, k as int),
        decreases 32 - k,
    {
        r.push(b[k]);
        assert(r@ =~= a@ + b@.subrange(0, (k + 1) as int));
        k = k + 1;
    }
    assert(b@.subrange(0, 32) =~= b@);
    assert(a@.subrange(0, 32) =~= a@);
    r
}

/// A copy of a list of hashes.
fn copy_hashes(v: &Vec<[u8; 32]>) -> (r: Vec<[u8; 32]>)
    ensures
        r@ == v@,
{
    let mut r: Vec<[u8; 32]> = Vec::new();
    let mut i: usize = 0;
    while i < v.len()
        invariant
            i <= v@.len(),
            r@ == v@.subrange(0, i as int),
        decreases v@.len() - i,
    {
        r.push(v[i]);
        assert(r@ =~= v@.subrange(0, (i + 1) as int));
        i = i + 1;
    }
    assert(v@.subrange(0, i as int) =~= v@);
    r
}

/// The level above `level`.
fn next_level_exec(level: &Vec<[u8; 32]>) -> (r: Vec<[u8; 32]>)
    requires
        level@.len() >= 1,
    ensures
        hashes_view(r@) == next_level(hashes_view(level@)),
        r@.len() == (level@.len() + 1) / 2,
{
    let ghost lv = hashes_view(level@);
    let n = level.len();
    let half = n / 2 + n % 2;
    let mut r: Vec<[u8; 32]> = Vec::new();
    let mut j: usize = 0;
    while j < half
        invariant
            n == level@.len(),
            half == (n + 1) / 2,
            j <= half,
            lv == hashes_view(level@),
            r@.len() == j,
            forall|q: int| 0 <= q < j ==> #[trigger] r@[q]@ == next_level(lv)[q],
        decreases half - j,
    {
        let left = &level[2 * j];
        let right = if 2 * j + 1 < n {
            &level[2 * j + 1]
        } else {
            &level[2 * j]
        };
        let m = concat(left, right);
        let h = double_sha256(&m);
        r.push(h);
        j = j + 1;
    }
    assert(hashes_view(r@) =~= next_level(lv));
    r
}

/// The Merkle root of a block whose transaction ids are `txids`.
pub fn block_merkle_root(txids: &Vec<[u8; 32]>) -> (r: [u8; 32])
    requires
        txids@.len() >= 1,
    ensures
        r@ == merkle_root(hashes_view(txids@)),
{
    let mut level: Vec<[u8; 32]> = copy_hashes(txids);
    while level.len() > 1
        invariant
            level@.len() >= 1,
            merkle_root(hashes_view(level@)) == merkle_root(hashes_view(txids@)),
        decreases level@.len(),
    {
        let next = next_level_exec(&level);
        level = next;
    }
    level[0]
}

/// The path that proves transaction `index` of a block whose transaction
/// ids are `txids`.
pub fn block_merkle_path(txids: &Vec<[u8; 32]>, index: usize) -> (r: Vec<[u8; 32]>)
    requires
        index < txids@.len(),
    ensures
        hashes_view(r@) == merkle_path(hashes_view(txids@), index as int),
{
    let mut level: Vec<[u8; 32]> = copy_hashes(txids);
    let mut i: usize = index;
    let mut path: Vec<[u8; 32]> = Vec::new();
    while level.len() > 1
        invariant
            i < level@.len(),
            hashes_view(path@) + merkle_path(hashes_view(level@), i as int) == merkle_path(
                hashes_view(txids@),
                index as int,
            ),
        decreases level@.len(),
    {
        let ghost before = hashes_view(path@);
        let ghost lv = hashes_view(level@);
        let ghost i0 = i as int;
        let s = if i % 2 == 0 {
            if i + 1 < level.len() {
                level[i + 1]
            } else {
                level[i]
            }
        } else {
            level[i - 1]
        };
        path.push(s);
        assert(s@ == sibling(lv, i as int));
        let next = next_level_exec(&level);
        level = next;
        i = i / 2;
        assert(hashes_view(path@) =~= before.push(sibling(lv, i0)));
        assert(merkle_path(lv, i0) == seq![sibling(lv, i0)] + merkle_path(next_level(lv), i0 / 2));
        assert(before.push(sibling(lv, i0)) + merkle_path(next_level(lv), i0 / 2) =~= before + (seq![
            sibling(lv, i0),
        ] + merkle_path(next_level(lv), i0 / 2)));
    }
    assert(merkle_path(hashes_view(level@), i as int) =~= Seq::<Seq<u8>>::empty());
    assert(hashes_view(path@) =~= merkle_path(hashes_view(txids@), index as int));
    path
}

/// Whether `path` leads from `leaf` at position `index` to `root`.
pub fn verify_merkle_proof(leaf: &[u8; 32], path: &Vec<[u8; 32]>, index: usize, root: &[u8; 32]) -> (r:
    bool)
    ensures
        r == (root_from_path(leaf@, hashes_view(path@), index as int) == root@),
{
    let ghost full = hashes_view(path@);
    let mut cur: [u8; 32] = *leaf;
    let mut i: usize = index;
    let mut k: usize = 0;
    assert(full.subrange(0, full.len() as int) =~= full);
    while k < path.len()
        invariant
            k <= path@.len(),
            full == hashes_view(path@),
            root_from_path(cur@, full.subrange(k as int, full.len() as int), i as int)
                == root_from_path(leaf@, full, index as int),
        decreases path@.len() - k,
    {
        let ghost rest = full.subrange(k as int, full.len() as int);
        assert(rest.drop_first() =~= full.subrange((k + 1) as int, full.len() as int));
        let m = if i % 2 == 0 {
            concat(&cur, &path[k])
        } else {
            concat(&path[k], &cur)
        };
        cur = double_sha256(&m);
        i = i / 2;
        k = k + 1;
    }
    assert(full.subrange(k as int, full.len() as int) =~= Seq::<Seq<u8>>::empty());
    assert(root_from_path(cur@, Seq::<Seq<u8>>::empty(), i as int) == cur@);
    let mut j: usize = 0;
    while j < 32
        invariant
            j <= 32,
            cur@ == root_from_path(leaf@, hashes_view(path@), index as int),
            forall|q: int| 0 <= q < j ==> cur@[q] == root@[q],
        decreases 32 - j,
    {
        if cur[j] != root[j] {
            assert(cur@[j as int] != root@[j as int]);
            return false;
        }
        j = j + 1;
    }
    assert(cur@ =~= root@);
    true
}

} // verus!
