//! The fingerprint of a recipient set: SHA-256 of its sorted public keys.
use sha2::Digest;
use vstd::prelude::*;

use crate::strmap::strings_view;
use crate::text::{lemma_seq_lt_asymmetric, lemma_seq_lt_total, lemma_seq_lt_transitive, seq_lt, str_lt};

verus! {

/// SHA-256 of the UTF-8 bytes of `text`, as lowercase hexadecimal.
pub uninterp spec fn sha256_hex(text: Seq<char>) -> Seq<char>;

/// `sha2::Sha256::digest` of the bytes of `text`, formatted with `{:x}`.
#[verifier::external_body]
fn sha256_hex_of(text: &str) -> (r: String)
    ensures
        r@ == sha256_hex(text@),
{
    format!("{:x}", sha2::Sha256::digest(text.as_bytes()))
}

/// `a` sorts no later than `b`.
pub open spec fn seq_le(a: Seq<char>, b: Seq<char>) -> bool {
    a == b || seq_lt(a, b)
}

/// Sorted in non-decreasing order.
pub open spec fn sorted_le(s: Seq<Seq<char>>) -> bool {
    forall|i: int, j: int| 0 <= i < j < s.len() ==> seq_le(#[trigger] s[i], #[trigger] s[j])
}

/// The pieces joined with a newline between each two (`[&str]::join("\n")`).
pub open spec fn join_lines(s: Seq<Seq<char>>) -> Seq<char>
    decreases s.len(),
{
    if s.len() == 0 {
        Seq::empty()
    } else if s.len() == 1 {
        s[0]
    } else {
        join_lines(s.drop_last()) + seq!['\n'] + s.last()
    }
}

/// The fingerprint of a set of public keys: the hash of the keys in sorted
/// order, one per line. `sorted` is the keys sorted; there is just one such
/// order (`lemma_sorted_unique`).
pub open spec fn fingerprint_of(sorted: Seq<Seq<char>>) -> Seq<char> {
    sha256_hex(join_lines(sorted))
}

/// `sorted` is `keys` in sorted order.
pub open spec fn is_sorting_of(sorted: Seq<Seq<char>>, keys: Seq<Seq<char>>) -> bool {
    sorted_le(sorted) && sorted.to_multiset() == keys.to_multiset()
}

/// `seq_le` is antisymmetric.
pub proof fn lemma_seq_le_antisymmetric(a: Seq<char>, b: Seq<char>)
    requires
        seq_le(a, b),
        seq_le(b, a),
    ensures
        a == b,
{
    lemma_seq_lt_asymmetric(a, b);
}

/// Two sorted sequences with the same elements are equal: sorting has one
/// result whatever the order of its input.
pub proof fn lemma_sorted_unique(a: Seq<Seq<char>>, b: Seq<Seq<char>>)
    requires
        sorted_le(a),
        sorted_le(b),
        a.to_multiset() == b.to_multiset(),
    ensures
        a == b,
    decreases a.len(),
{
    broadcast use vstd::seq_lib::group_to_multiset_ensures;

    assert(a.len() == a.to_multiset().len());
    assert(b.len() == b.to_multiset().len());
    if a.len() == 0 {
        assert(a =~= b);
    } else {
        assert(a.to_multiset().count(a[0]) > 0);
        assert(b.contains(a[0]));
        let j = choose|j: int| 0 <= j < b.len() && b[j] == a[0];
        if j > 0 {
            assert(seq_le(b[0], b[j]));
        }
        assert(b.to_multiset().count(b[0]) > 0);
        assert(a.contains(b[0]));
        let k = choose|k: int| 0 <= k < a.len() && a[k] == b[0];
        if k > 0 {
            assert(seq_le(a[0], a[k]));
        }
        lemma_seq_le_antisymmetric(a[0], b[0]);
        let ra = a.remove(0);
        let rb = b.remove(0);
        assert(ra.to_multiset() == a.to_multiset().remove(a[0]));
        assert(rb.to_multiset() == b.to_multiset().remove(b[0]));
        assert forall|i: int, j: int| 0 <= i < j < ra.len() implies seq_le(
            #[trigger] ra[i],
            #[trigger] ra[j],
        ) by {
            assert(ra[i] == a[i + 1] && ra[j] == a[j + 1]);
        }
        assert forall|i: int, j: int| 0 <= i < j < rb.len() implies seq_le(
            #[trigger] rb[i],
            #[trigger] rb[j],
        ) by {
            assert(rb[i] == b[i + 1] && rb[j] == b[j + 1]);
        }
        lemma_sorted_unique(ra, rb);
        assert(a =~= seq![a[0]] + ra);
        assert(b =~= seq![b[0]] + rb);
    }
}

/// The strings in sorted order (by code point, as `slice::sort` orders
/// `&str`).
pub fn sorted_strings(v: &[String]) -> (r: Vec<String>)
    ensures
        is_sorting_of(strings_view(r@), strings_view(v@)),
{
    broadcast use vstd::seq_lib::group_to_multiset_ensures;

    let mut r: Vec<String> = Vec::new();
    let mut i: usize = 0;
    assert(strings_view(r@) =~= strings_view(v@).take(0));
    while i < v.len()
        invariant
            i <= v@.len(),
            sorted_le(strings_view(r@)),
            strings_view(r@).to_multiset() == strings_view(v@).take(i as int).to_multiset(),
        decreases v@.len() - i,
    {
        let x = v[i].clone();
        let ghost rv = strings_view(r@);
        let mut p: usize = 0;
        while p < r.len() && !str_lt(x.as_str(), r[p].as_str())
            invariant
                p <= r@.len(),
                rv == strings_view(r@),
                sorted_le(rv),
                forall|q: int| 0 <= q < p ==> seq_le(#[trigger] rv[q], x@),
            decreases r@.len() - p,
        {
            proof {
                assert(rv[p as int] == r@[p as int]@);
                lemma_seq_lt_total(x@, rv[p as int]);
            }
            p = p + 1;
        }
        proof {
            if p < r@.len() {
                assert(rv[p as int] == r@[p as int]@);
            }
            assert forall|q: int| p <= q < rv.len() implies seq_lt(x@, #[trigger] rv[q]) by {
                if q > p {
                    assert(seq_le(rv[p as int], rv[q]));
                    if rv[p as int] != rv[q] {
                        lemma_seq_lt_transitive(x@, rv[p as int], rv[q]);
                    }
                }
            }
        }
        r.insert(p, x);
        proof {
            let nv = strings_view(r@);
            assert(nv =~= rv.insert(p as int, v@[i as int]@));
            assert(strings_view(v@).take(i + 1) =~= strings_view(v@).take(i as int).push(
                v@[i as int]@,
            ));
            vstd::seq_lib::to_multiset_insert(rv, p as int, v@[i as int]@);
            vstd::seq_lib::to_multiset_build(strings_view(v@).take(i as int), v@[i as int]@);
            assert forall|a: int, b: int| 0 <= a < b < nv.len() implies seq_le(
                #[trigger] nv[a],
                #[trigger] nv[b],
            ) by {
                if b < p {
                    assert(nv[a] == rv[a] && nv[b] == rv[b]);
                } else if b == p {
                    assert(nv[a] == rv[a]);
                } else if a < p {
                    assert(nv[a] == rv[a] && nv[b] == rv[b - 1]);
                    assert(seq_le(rv[a], x@));
                    assert(seq_lt(x@, rv[b - 1]));
                    if rv[a] != x@ {
                        lemma_seq_lt_transitive(rv[a], x@, rv[b - 1]);
                    }
                } else if a == p {
                    assert(nv[b] == rv[b - 1]);
                } else {
                    assert(nv[a] == rv[a - 1] && nv[b] == rv[b - 1]);
                }
            }
        }
        i = i + 1;
    }
    assert(strings_view(v@).take(i as int) =~= strings_view(v@));
    r
}

/// The pieces joined with newlines.
pub fn join_with_newlines(v: &[String]) -> (r: String)
    ensures
        r@ == join_lines(strings_view(v@)),
{
    let mut r = String::new();
    let mut i: usize = 0;
    assert(strings_view(v@).take(0) =~= Seq::<Seq<char>>::empty());
    while i < v.len()
        invariant
            i <= v@.len(),
            r@ == join_lines(strings_view(v@).take(i as int)),
        decreases v@.len() - i,
    {
        let ghost before = strings_view(v@).take(i as int);
        let ghost after = strings_view(v@).take(i + 1);
        assert(after.drop_last() =~= before);
        assert(after.last() == v@[i as int]@);
        if i > 0 {
            crate::text::push_char(&mut r, '\n');
        } else {
            assert(after =~= seq![v@[0]@]);
        }
        r.append(v[i].as_str());
        i = i + 1;
    }
    assert(strings_view(v@).take(i as int) =~= strings_view(v@));
    r
}

/// SHA-256 fingerprint of a set of public keys: the keys sorted, joined with
/// newlines, hashed, in lowercase hex. The order of `keys` does not matter.
pub fn fingerprint(keys: &[String]) -> (r: String)
    ensures
        exists|s: Seq<Seq<char>>| is_sorting_of(s, strings_view(keys@)) && r@ == fingerprint_of(s),
{
    let sorted = sorted_strings(keys);
    let joined = join_with_newlines(sorted.as_slice());
    let r = sha256_hex_of(joined.as_str());
    assert(is_sorting_of(strings_view(sorted@), strings_view(keys@)) && r@ == fingerprint_of(
        strings_view(sorted@),
    ));
    r
}

/// Key lists with the same elements have the same fingerprint.
pub proof fn lemma_fingerprint_order_free(
    keys1: Seq<Seq<char>>,
    keys2: Seq<Seq<char>>,
    s1: Seq<Seq<char>>,
    s2: Seq<Seq<char>>,
)
    requires
        keys1.to_multiset() == keys2.to_multiset(),
        is_sorting_of(s1, keys1),
        is_sorting_of(s2, keys2),
    ensures
        fingerprint_of(s1) == fingerprint_of(s2),
{
    lemma_sorted_unique(s1, s2);
}

/// Keys are joined with exactly one line break between each two: one key
/// is itself, two keys `a` and `b` are `a`, a line break, then `b`, and one
/// more key adds a line break and that key.
pub proof fn lemma_join_lines_shape(s: Seq<Seq<char>>, a: Seq<char>, b: Seq<char>)
    ensures
        join_lines(seq![a]) == a,
        join_lines(seq![a, b]) == a + seq!['\n'] + b,
        s.len() > 0 ==> join_lines(s.push(b)) == join_lines(s) + seq!['\n'] + b,
{
    assert(seq![a, b].drop_last() =~= seq![a]);
    assert(join_lines(seq![a]) == a);
    assert(join_lines(seq![a, b]) == join_lines(seq![a, b].drop_last()) + seq!['\n'] + seq![a, b].last());
    assert(s.push(b).drop_last() =~= s);
}

/// The fingerprint of two keys is the hash of the smaller one, a line
/// break, and the larger one, whatever order they are given in.
pub proof fn lemma_fingerprint_two(a: Seq<char>, b: Seq<char>, sorted: Seq<Seq<char>>)
    requires
        seq_le(a, b),
        is_sorting_of(sorted, seq![a, b]) || is_sorting_of(sorted, seq![b, a]),
    ensures
        fingerprint_of(sorted) == sha256_hex(a + seq!['\n'] + b),
{
    broadcast use vstd::seq_lib::group_to_multiset_ensures;

    let ab = seq![a, b];
    assert(sorted_le(ab));
    assert(seq![b, a].to_multiset() =~= ab.to_multiset()) by {
        vstd::seq_lib::to_multiset_build(seq![b], a);
        vstd::seq_lib::to_multiset_build(seq![a], b);
        vstd::seq_lib::to_multiset_build(Seq::<Seq<char>>::empty(), a);
        vstd::seq_lib::to_multiset_build(Seq::<Seq<char>>::empty(), b);
        assert(seq![b, a] =~= seq![b].push(a));
        assert(ab =~= seq![a].push(b));
        assert(seq![a] =~= Seq::<Seq<char>>::empty().push(a));
        assert(seq![b] =~= Seq::<Seq<char>>::empty().push(b));
    }
    lemma_sorted_unique(sorted, ab);
    lemma_join_lines_shape(Seq::empty(), a, b);
}

} // verus!
