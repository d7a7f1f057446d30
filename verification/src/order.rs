//! Stable orderings: a permutation of `0..n` that sorts items by a key and keeps
//! items with equal keys in the order they were given.
use vstd::prelude::*;

verus! {

/// Lexicographic "less than" on character sequences (the order of `str`'s `Ord`,
/// which compares the UTF-8 bytes, agrees with it).
pub open spec fn lex_lt(a: Seq<char>, b: Seq<char>) -> bool
    decreases a.len(),
{
    if a.len() == 0 {
        b.len() > 0
    } else if b.len() == 0 {
        false
    } else if a[0] < b[0] {
        true
    } else if a[0] == b[0] {
        lex_lt(a.drop_first(), b.drop_first())
    } else {
        false
    }
}

/// `lex_lt` is irreflexive.
pub proof fn lemma_lex_irreflexive(a: Seq<char>)
    ensures
        !lex_lt(a, a),
    decreases a.len(),
{
    if a.len() > 0 {
        lemma_lex_irreflexive(a.drop_first());
    }
}

/// `lex_lt` is transitive.
pub proof fn lemma_lex_transitive(a: Seq<char>, b: Seq<char>, c: Seq<char>)
    requires
        lex_lt(a, b),
        lex_lt(b, c),
    ensures
        lex_lt(a, c),
    decreases a.len(),
{
    if a.len() > 0 && b.len() > 0 && c.len() > 0 && a[0] == b[0] && b[0] == c[0] {
        lemma_lex_transitive(a.drop_first(), b.drop_first(), c.drop_first());
    }
}

/// Any two different sequences are ordered one way or the other.
pub proof fn lemma_lex_total(a: Seq<char>, b: Seq<char>)
    requires
        a != b,
    ensures
        lex_lt(a, b) || lex_lt(b, a),
    decreases a.len(),
{
    if a.len() > 0 && b.len() > 0 && a[0] == b[0] {
        if a.drop_first() == b.drop_first() {
            assert(a =~= seq![a[0]] + a.drop_first());
            assert(b =~= seq![b[0]] + b.drop_first());
        }
        lemma_lex_total(a.drop_first(), b.drop_first());
    } else if a.len() == 0 && b.len() == 0 {
        assert(a =~= b);
    }
}

/// Whether item `i` comes before item `j` when sorting ascending by text keys,
/// equal keys keeping the order they were given.
pub open spec fn text_before(keys: Seq<Seq<char>>, i: int, j: int) -> bool {
    lex_lt(keys[i], keys[j]) || (keys[i] == keys[j] && i < j)
}

/// Whether item `i` comes before item `j` when sorting descending by integer keys,
/// equal keys keeping the order they were given.
pub open spec fn int_desc_before(keys: Seq<i128>, i: int, j: int) -> bool {
    keys[i] > keys[j] || (keys[i] == keys[j] && i < j)
}

/// `p` lists each of `0..n` exactly once.
pub open spec fn is_permutation(p: Seq<usize>, n: nat) -> bool {
    &&& p.len() == n
    &&& forall|k: int| 0 <= k < p.len() ==> #[trigger] p[k] < n
    &&& forall|k: int, l: int| 0 <= k < l < p.len() ==> p[k] != p[l]
}

/// `p` is the stable ascending order of the text keys.
pub open spec fn is_text_order(p: Seq<usize>, keys: Seq<Seq<char>>) -> bool {
    &&& is_permutation(p, keys.len())
    &&& forall|k: int, l: int|
        0 <= k < l < p.len() ==> text_before(keys, #[trigger] p[k] as int, #[trigger] p[l] as int)
}

/// `p` is the stable descending order of the integer keys.
pub open spec fn is_int_desc_order(p: Seq<usize>, keys: Seq<i128>) -> bool {
    &&& is_permutation(p, keys.len())
    &&& forall|k: int, l: int|
        0 <= k < l < p.len() ==> int_desc_before(
            keys,
            #[trigger] p[k] as int,
            #[trigger] p[l] as int,
        )
}

/// Exec form of `lex_lt`.
pub fn lex_less(a: &Vec<char>, b: &Vec<char>) -> (r: bool)
    ensures
        r == lex_lt(a@, b@),
{
    let mut i: usize = 0;
    assert(a@.skip(0) =~= a@);
    assert(b@.skip(0) =~= b@);
    while i < a.len() && i < b.len()
        invariant
            i <= a@.len(),
            i <= b@.len(),
            lex_lt(a@, b@) == lex_lt(a@.skip(i as int), b@.skip(i as int)),
        decreases a@.len() - i,
    {
        if a[i] != b[i] {
            return a[i] < b[i];
        }
        assert(a@.skip(i as int).drop_first() =~= a@.skip(i + 1));
        assert(b@.skip(i as int).drop_first() =~= b@.skip(i + 1));
        i = i + 1;
    }
    i == a.len() && i < b.len()
}

/// The stable ascending order of `keys`.
pub fn text_order(keys: &Vec<Vec<char>>) -> (p: Vec<usize>)
    ensures
        is_text_order(p@, keys@.map_values(|k: Vec<char>| k@)),
{
    let ghost kv = keys@.map_values(|k: Vec<char>| k@);
    let n = keys.len();
    let mut p: Vec<usize> = Vec::new();
    let mut i: usize = 0;
    while i < n
        invariant
            n == keys@.len(),
            kv == keys@.map_values(|k: Vec<char>| k@),
            i <= n,
            p@.len() == i,
            forall|k: int| 0 <= k < p@.len() ==> #[trigger] p@[k] < i,
            forall|k: int, l: int| 0 <= k < l < p@.len() ==> p@[k] != p@[l],
            forall|k: int, l: int|
                0 <= k < l < p@.len() ==> text_before(kv, #[trigger] p@[k] as int, #[trigger] p@[l] as int),
        decreases n - i,
    {
        let mut pos: usize = 0;
        while pos < p.len() && !lex_less(&keys[i], &keys[p[pos]])
            invariant
                n == keys@.len(),
                kv == keys@.map_values(|k: Vec<char>| k@),
                i < n,
                pos <= p@.len(),
                forall|k: int| 0 <= k < p@.len() ==> #[trigger] p@[k] < i,
                forall|k: int| 0 <= k < pos ==> !lex_lt(kv[i as int], kv[#[trigger] p@[k] as int]),
            decreases p@.len() - pos,
        {
            pos = pos + 1;
        }
        let ghost old_p = p@;
        proof {
            assert forall|k: int| 0 <= k < pos implies text_before(kv, #[trigger] old_p[k] as int, i as int) by {
                let a = kv[old_p[k] as int];
                let b = kv[i as int];
                if a != b {
                    lemma_lex_total(a, b);
                }
            }
            if pos < old_p.len() {
                assert(lex_lt(kv[i as int], kv[old_p[pos as int] as int]));
                assert forall|k: int| pos <= k < old_p.len() implies text_before(kv, i as int, #[trigger] old_p[k] as int) by {
                    if k > pos {
                        let a = kv[i as int];
                        let b = kv[old_p[pos as int] as int];
                        let c = kv[old_p[k] as int];
                        assert(text_before(kv, old_p[pos as int] as int, old_p[k] as int));
                        if lex_lt(b, c) {
                            lemma_lex_transitive(a, b, c);
                        }
                    }
                }
            }
        }
        p.insert(pos, i);
        proof {
            assert forall|k: int, l: int| 0 <= k < l < p@.len() implies text_before(kv, #[trigger] p@[k] as int, #[trigger] p@[l] as int) by {
                if l < pos {
                    assert(p@[k] == old_p[k] && p@[l] == old_p[l]);
                } else if l == pos {
                    assert(p@[k] == old_p[k]);
                } else if k == pos {
                    assert(p@[l] == old_p[l - 1]);
                } else if k < pos {
                    assert(p@[k] == old_p[k] && p@[l] == old_p[l - 1]);
                } else {
                    assert(p@[k] == old_p[k - 1] && p@[l] == old_p[l - 1]);
                }
            }
            assert forall|k: int, l: int| 0 <= k < l < p@.len() implies p@[k] != p@[l] by {
                if l < pos {
                    assert(p@[k] == old_p[k] && p@[l] == old_p[l]);
                } else if l == pos {
                    assert(p@[k] == old_p[k]);
                } else if k == pos {
                    assert(p@[l] == old_p[l - 1]);
                } else if k < pos {
                    assert(p@[k] == old_p[k] && p@[l] == old_p[l - 1]);
                } else {
                    assert(p@[k] == old_p[k - 1] && p@[l] == old_p[l - 1]);
                }
            }
            assert forall|k: int| 0 <= k < p@.len() implies #[trigger] p@[k] < i + 1 by {
                if k < pos {
                    assert(p@[k] == old_p[k]);
                } else if k > pos {
                    assert(p@[k] == old_p[k - 1]);
                }
            }
        }
        i = i + 1;
    }
    p
}

/// The stable descending order of `keys`.
pub fn int_desc_order(keys: &Vec<i128>) -> (p: Vec<usize>)
    ensures
        is_int_desc_order(p@, keys@),
{
    let n = keys.len();
    let mut p: Vec<usize> = Vec::new();
    let mut i: usize = 0;
    while i < n
        invariant
            n == keys@.len(),
            i <= n,
            p@.len() == i,
            forall|k: int| 0 <= k < p@.len() ==> #[trigger] p@[k] < i,
            forall|k: int, l: int| 0 <= k < l < p@.len() ==> p@[k] != p@[l],
            forall|k: int, l: int|
                0 <= k < l < p@.len() ==> int_desc_before(keys@, #[trigger] p@[k] as int, #[trigger] p@[l] as int),
        decreases n - i,
    {
        let mut pos: usize = 0;
        while pos < p.len() && !(keys[i] > keys[p[pos]])
            invariant
                n == keys@.len(),
                i < n,
                pos <= p@.len(),
                forall|k: int| 0 <= k < p@.len() ==> #[trigger] p@[k] < i,
                forall|k: int| 0 <= k < pos ==> !(keys@[i as int] > keys@[#[trigger] p@[k] as int]),
            decreases p@.len() - pos,
        {
            pos = pos + 1;
        }
        let ghost old_p = p@;
        proof {
            assert forall|k: int| 0 <= k < pos implies int_desc_before(keys@, #[trigger] old_p[k] as int, i as int) by {
            }
            if pos < old_p.len() {
                assert forall|k: int| pos <= k < old_p.len() implies int_desc_before(keys@, i as int, #[trigger] old_p[k] as int) by {
                    if k > pos {
                        assert(int_desc_before(keys@, old_p[pos as int] as int, old_p[k] as int));
                    }
                }
            }
        }
        p.insert(pos, i);
        proof {
            assert forall|k: int, l: int| 0 <= k < l < p@.len() implies int_desc_before(keys@, #[trigger] p@[k] as int, #[trigger] p@[l] as int) by {
                if l < pos {
                    assert(p@[k] == old_p[k] && p@[l] == old_p[l]);
                } else if l == pos {
                    assert(p@[k] == old_p[k]);
                } else if k == pos {
                    assert(p@[l] == old_p[l - 1]);
                } else if k < pos {
                    assert(p@[k] == old_p[k] && p@[l] == old_p[l - 1]);
                } else {
                    assert(p@[k] == old_p[k - 1] && p@[l] == old_p[l - 1]);
                }
            }
            assert forall|k: int, l: int| 0 <= k < l < p@.len() implies p@[k] != p@[l] by {
                if l < pos {
                    assert(p@[k] == old_p[k] && p@[l] == old_p[l]);
                } else if l == pos {
                    assert(p@[k] == old_p[k]);
                } else if k == pos {
                    assert(p@[l] == old_p[l - 1]);
                } else if k < pos {
                    assert(p@[k] == old_p[k] && p@[l] == old_p[l - 1]);
                } else {
                    assert(p@[k] == old_p[k - 1] && p@[l] == old_p[l - 1]);
                }
            }
            assert forall|k: int| 0 <= k < p@.len() implies #[trigger] p@[k] < i + 1 by {
                if k < pos {
                    assert(p@[k] == old_p[k]);
                } else if k > pos {
                    assert(p@[k] == old_p[k - 1]);
                }
            }
        }
        i = i + 1;
    }
    p
}

} // verus!
