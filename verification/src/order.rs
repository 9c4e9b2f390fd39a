use vstd::prelude::*;

use crate::catalog::CatalogEntry;
use crate::text::{lowercase, to_lowercase};

verus! {

/// Lexicographic order of strings by code point, as `str`'s `Ord` orders them.
pub open spec fn lex_lt(a: Seq<char>, b: Seq<char>) -> bool
    decreases a.len(),
{
    if a.len() == 0 {
        b.len() > 0
    } else if b.len() == 0 {
        false
    } else if a[0] != b[0] {
        (a[0] as int) < (b[0] as int)
    } else {
        lex_lt(a.drop_first(), b.drop_first())
    }
}

pub(crate) proof fn lemma_lex_irreflexive(a: Seq<char>)
    ensures
        !lex_lt(a, a),
    decreases a.len(),
{
    if a.len() > 0 {
        lemma_lex_irreflexive(a.drop_first());
    }
}

proof fn lemma_lex_total(a: Seq<char>, b: Seq<char>)
    ensures
        lex_lt(a, b) || lex_lt(b, a) || a == b,
    decreases a.len(),
{
    if a.len() > 0 && b.len() > 0 {
        if a[0] == b[0] {
            lemma_lex_total(a.drop_first(), b.drop_first());
            if a.drop_first() == b.drop_first() {
                assert(a =~= seq![a[0]] + a.drop_first());
                assert(b =~= seq![b[0]] + b.drop_first());
            }
        } else {
            assert((a[0] as int) != (b[0] as int));
        }
    } else if a.len() == 0 && b.len() == 0 {
        assert(a =~= b);
    }
}

pub(crate) proof fn lemma_lex_asymmetric(a: Seq<char>, b: Seq<char>)
    ensures
        lex_lt(a, b) ==> !lex_lt(b, a),
    decreases a.len(),
{
    if a.len() > 0 && b.len() > 0 && a[0] == b[0] {
        lemma_lex_asymmetric(a.drop_first(), b.drop_first());
    }
}

proof fn lemma_lex_transitive(a: Seq<char>, b: Seq<char>, c: Seq<char>)
    requires
        lex_lt(a, b),
        lex_lt(b, c),
    ensures
        lex_lt(a, c),
    decreases a.len(),
{
    if a.len() > 0 && b.len() > 0 && c.len() > 0 && a[0] == b[0] && b[0] == c[0] {
        lemma_lex_transitive(a.drop_first(), b.drop_first(), c.drop_first());
    }
}

/// `str < str`: byte order of UTF-8, which is code point order.
#[verifier::external_body]
fn str_less(a: &str, b: &str) -> (r: bool)
    ensures
        r == lex_lt(a@, b@),
{
    a < b
}

/// The catalog sort key of an entry: its name lower-cased, then its id.
pub open spec fn entry_key(e: CatalogEntry) -> (Seq<char>, Seq<char>) {
    (lowercase(e.summary.name@), e.summary.id@)
}

/// Whether entry `i` comes before entry `j` in the catalog: by lower-cased
/// name, then id, then position in the input.
pub open spec fn before(es: Seq<CatalogEntry>, i: int, j: int) -> bool {
    let (ni, di) = entry_key(es[i]);
    let (nj, dj) = entry_key(es[j]);
    ||| lex_lt(ni, nj)
    ||| (ni == nj && lex_lt(di, dj))
    ||| (ni == nj && di == dj && i < j)
}

pub(crate) proof fn lemma_before_order(es: Seq<CatalogEntry>, i: int, j: int, k: int)
    ensures
        i != j ==> (before(es, i, j) || before(es, j, i)),
        !(before(es, i, j) && before(es, j, i)),
        !before(es, i, i),
        before(es, i, j) && before(es, j, k) ==> before(es, i, k),
{
    let (ni, di) = entry_key(es[i]);
    let (nj, dj) = entry_key(es[j]);
    let (nk, dk) = entry_key(es[k]);
    lemma_lex_total(ni, nj);
    lemma_lex_total(di, dj);
    lemma_lex_asymmetric(ni, nj);
    lemma_lex_asymmetric(di, dj);
    lemma_lex_irreflexive(ni);
    lemma_lex_irreflexive(di);
    lemma_lex_irreflexive(nj);
    lemma_lex_irreflexive(dj);
    if before(es, i, j) && before(es, j, k) {
        if lex_lt(ni, nj) && lex_lt(nj, nk) {
            lemma_lex_transitive(ni, nj, nk);
        }
        if lex_lt(di, dj) && lex_lt(dj, dk) && ni == nj && nj == nk {
            lemma_lex_transitive(di, dj, dk);
        }
    }
}

/// The order in which the catalog lists `es`: every position once, each before
/// the next by lower-cased name, then id, then position in the input.
pub open spec fn is_catalog_order(es: Seq<CatalogEntry>, order: Seq<usize>) -> bool {
    &&& order.len() == es.len()
    &&& forall|k: int| 0 <= k < order.len() ==> (#[trigger] order[k]) < es.len()
    &&& forall|k: int, l: int| 0 <= k < l < order.len() ==> before(es, order[k] as int, order[l] as int)
}

/// The listing order of catalog entries, sorted by lower-cased name and then by
/// id; entries with equal keys keep their relative order.
pub fn catalog_order(entries: &Vec<CatalogEntry>) -> (order: Vec<usize>)
    ensures
        is_catalog_order(entries@, order@),
        forall|k: int, l: int| 0 <= k < l < order@.len() ==> order@[k] != order@[l],
{
    let ghost es = entries@;
    let n = entries.len();
    let mut keys: Vec<String> = Vec::new();
    let mut i: usize = 0;
    while i < n
        invariant
            n == es.len(),
            es == entries@,
            i <= n,
            keys@.len() == i,
            forall|k: int| 0 <= k < i ==> (#[trigger] keys@[k])@ == lowercase(es[k].summary.name@),
        decreases n - i,
    {
        keys.push(to_lowercase(entries[i].summary.name.as_str()));
        i = i + 1;
    }
    let mut order: Vec<usize> = Vec::new();
    let mut i: usize = 0;
    while i < n
        invariant
            n == es.len(),
            es == entries@,
            i <= n,
            keys@.len() == n,
            forall|k: int| 0 <= k < n ==> (#[trigger] keys@[k])@ == lowercase(es[k].summary.name@),
            order@.len() == i,
            forall|k: int| 0 <= k < order@.len() ==> (#[trigger] order@[k]) < i,
            forall|k: int, l: int| 0 <= k < l < order@.len() ==> before(es, order@[k] as int, order@[l] as int),
        decreases n - i,
    {
        let mut p: usize = 0;
        while p < order.len() && !str_less(keys[i].as_str(), keys[order[p]].as_str())
            && !(keys[i] == keys[order[p]] && str_less(entries[i].summary.id.as_str(), entries[order[p]].summary.id.as_str()))
            invariant
                n == es.len(),
                es == entries@,
                i < n,
                keys@.len() == n,
                forall|k: int| 0 <= k < n ==> (#[trigger] keys@[k])@ == lowercase(es[k].summary.name@),
                p <= order@.len(),
                forall|k: int| 0 <= k < order@.len() ==> (#[trigger] order@[k]) < i,
                forall|k: int| 0 <= k < p ==> before(es, #[trigger] order@[k] as int, i as int),
            decreases order@.len() - p,
        {
            proof {
                let j = order@[p as int] as int;
                lemma_before_order(es, i as int, j, j);
                lemma_lex_total(keys@[i as int]@, keys@[j]@);
                assert(before(es, j, i as int));
            }
            p = p + 1;
        }
        proof {
            if p < order@.len() {
                let j = order@[p as int] as int;
                assert(before(es, i as int, j));
                assert forall|l: int| p <= l < order@.len() implies before(es, i as int, #[trigger] order@[l] as int) by {
                    if l > p {
                        lemma_before_order(es, i as int, j, order@[l] as int);
                    }
                }
            }
        }
        let ghost old_order = order@;
        order.insert(p, i);
        proof {
            assert forall|k: int, l: int| 0 <= k < l < order@.len() implies before(es, order@[k] as int, order@[l] as int) by {
                if k < p && l == p {
                } else if k < p && l > p {
                    assert(order@[l] == old_order[l - 1]);
                    lemma_before_order(es, order@[k] as int, i as int, order@[l] as int);
                } else if k == p {
                    assert(order@[l] == old_order[l - 1]);
                } else if k > p {
                    assert(order@[k] == old_order[k - 1] && order@[l] == old_order[l - 1]);
                }
            }
        }
        i = i + 1;
    }
    proof {
        assert forall|k: int, l: int| 0 <= k < l < order@.len() implies order@[k] != order@[l] by {
            lemma_before_order(es, order@[k] as int, order@[k] as int, order@[k] as int);
        }
    }
    order
}

} // verus!
