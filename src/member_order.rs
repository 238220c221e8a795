use vstd::prelude::*;

use crate::placement::PlacementResult;
use crate::text::chars_of;

verus! {

/// Lexicographic order of names, by character code.
pub open spec fn name_lt(a: Seq<char>, b: Seq<char>) -> bool
    decreases a.len(),
{
    if a.len() == 0 {
        b.len() > 0
    } else if b.len() == 0 {
        false
    } else if a[0] != b[0] {
        (a[0] as u32) < (b[0] as u32)
    } else {
        name_lt(a.drop_first(), b.drop_first())
    }
}

/// The order of the queries of a group: by sequence name, then by index.
pub open spec fn member_before(results: Seq<PlacementResult>, x: usize, y: usize) -> bool {
    name_lt(results[x as int].seq_name@, results[y as int].seq_name@) || (results[x as int].seq_name@
        == results[y as int].seq_name@ && x < y)
}

/// `s` is in strictly increasing order under `lt`.
pub open spec fn strictly_sorted<T>(s: Seq<T>, lt: spec_fn(T, T) -> bool) -> bool {
    forall|a: int, b: int| #![trigger s[a], s[b]] 0 <= a < b < s.len() ==> lt(s[a], s[b])
}

pub proof fn lemma_name_lt_irreflexive(a: Seq<char>)
    ensures
        !name_lt(a, a),
    decreases a.len(),
{
    if a.len() > 0 {
        lemma_name_lt_irreflexive(a.drop_first());
    }
}

pub proof fn lemma_name_lt_asymmetric(a: Seq<char>, b: Seq<char>)
    ensures
        !(name_lt(a, b) && name_lt(b, a)),
    decreases a.len(),
{
    if a.len() > 0 && b.len() > 0 && a[0] == b[0] {
        lemma_name_lt_asymmetric(a.drop_first(), b.drop_first());
    }
}

pub proof fn lemma_name_lt_total(a: Seq<char>, b: Seq<char>)
    ensures
        a != b ==> name_lt(a, b) || name_lt(b, a),
    decreases a.len(),
{
    if a.len() > 0 && b.len() > 0 && a[0] == b[0] {
        lemma_name_lt_total(a.drop_first(), b.drop_first());
        if a.drop_first() == b.drop_first() {
            assert(a =~= seq![a[0]] + a.drop_first());
            assert(b =~= seq![b[0]] + b.drop_first());
        }
    } else if a.len() > 0 && b.len() > 0 {
        vstd::utf8::char_u32_cast(a[0], a[0] as u32);
        vstd::utf8::char_u32_cast(b[0], b[0] as u32);
        assert((a[0] as u32) != (b[0] as u32));
    } else if a.len() == 0 && b.len() == 0 {
        assert(a =~= b);
    }
}

pub proof fn lemma_name_lt_transitive(a: Seq<char>, b: Seq<char>, c: Seq<char>)
    requires
        name_lt(a, b),
        name_lt(b, c),
    ensures
        name_lt(a, c),
    decreases a.len(),
{
    if a.len() > 0 && a[0] == b[0] && b[0] == c[0] {
        lemma_name_lt_transitive(a.drop_first(), b.drop_first(), c.drop_first());
    }
}

proof fn lemma_member_order(results: Seq<PlacementResult>)
    ensures
        forall|x: usize| !#[trigger] member_before(results, x, x),
        forall|x: usize, y: usize|
            x != y ==> #[trigger] member_before(results, x, y) || #[trigger] member_before(results, y, x),
        forall|x: usize, y: usize|
            #[trigger] member_before(results, x, y) ==> !#[trigger] member_before(results, y, x),
        forall|x: usize, y: usize, z: usize|
            #[trigger] member_before(results, x, y) && #[trigger] member_before(results, y, z)
                ==> member_before(results, x, z),
{
    assert forall|x: usize| !#[trigger] member_before(results, x, x) by {
        lemma_name_lt_irreflexive(results[x as int].seq_name@);
    }
    assert forall|x: usize, y: usize|
        x != y implies #[trigger] member_before(results, x, y) || #[trigger] member_before(results, y, x) by {
        lemma_name_lt_total(results[x as int].seq_name@, results[y as int].seq_name@);
    }
    assert forall|x: usize, y: usize| #[trigger]
        member_before(results, x, y) implies !#[trigger] member_before(results, y, x) by {
        lemma_name_lt_asymmetric(results[x as int].seq_name@, results[y as int].seq_name@);
        lemma_name_lt_irreflexive(results[x as int].seq_name@);
    }
    assert forall|x: usize, y: usize, z: usize|
        #[trigger] member_before(results, x, y) && #[trigger] member_before(results, y, z) implies member_before(
        results,
        x,
        z,
    ) by {
        let (a, b, c) = (results[x as int].seq_name@, results[y as int].seq_name@, results[z as int].seq_name@);
        if name_lt(a, b) && name_lt(b, c) {
            lemma_name_lt_transitive(a, b, c);
        }
    }
}

/// Two sequences in strictly increasing order under a strict order that hold the
/// same elements are equal.
pub proof fn lemma_sorted_unique<T>(s1: Seq<T>, s2: Seq<T>, lt: spec_fn(T, T) -> bool)
    requires
        forall|x: T| !#[trigger] lt(x, x),
        forall|x: T, y: T| #[trigger] lt(x, y) ==> !#[trigger] lt(y, x),
        strictly_sorted(s1, lt),
        strictly_sorted(s2, lt),
        forall|x: T| s1.contains(x) <==> s2.contains(x),
    ensures
        s1 == s2,
    decreases s1.len() + s2.len(),
{
    if s1.len() == 0 || s2.len() == 0 {
        if s1.len() > 0 {
            assert(s1.contains(s1[0]));
        }
        if s2.len() > 0 {
            assert(s2.contains(s2[0]));
        }
        assert(s1 =~= s2);
    } else {
        assert(s1.contains(s1[0]));
        assert(s2.contains(s2[0]));
        let j = choose|j: int| 0 <= j < s2.len() && s2[j] == s1[0];
        let k = choose|k: int| 0 <= k < s1.len() && s1[k] == s2[0];
        if j > 0 {
            assert(lt(s2[0], s2[j]));
            if k > 0 {
                assert(lt(s1[0], s1[k]));
            }
        }
        assert(s1[0] == s2[0]);
        let t1 = s1.drop_first();
        let t2 = s2.drop_first();
        assert forall|x: T| t1.contains(x) <==> t2.contains(x) by {
            if t1.contains(x) {
                let a = choose|a: int| 0 <= a < t1.len() && t1[a] == x;
                assert(lt(s1[0], s1[a + 1]));
                assert(s1.contains(x));
                let b = choose|b: int| 0 <= b < s2.len() && s2[b] == x;
                if b == 0 {
                    assert(lt(x, x));
                }
                assert(t2[b - 1] == x);
            }
            if t2.contains(x) {
                let a = choose|a: int| 0 <= a < t2.len() && t2[a] == x;
                assert(lt(s2[0], s2[a + 1]));
                assert(s2.contains(x));
                let b = choose|b: int| 0 <= b < s1.len() && s1[b] == x;
                if b == 0 {
                    assert(lt(x, x));
                }
                assert(t1[b - 1] == x);
            }
        }
        assert forall|a: int, b: int| 0 <= a < b < t1.len() implies #[trigger] lt(t1[a], t1[b]) by {
            assert(lt(s1[a + 1], s1[b + 1]));
        }
        assert forall|a: int, b: int| 0 <= a < b < t2.len() implies #[trigger] lt(t2[a], t2[b]) by {
            assert(lt(s2[a + 1], s2[b + 1]));
        }
        lemma_sorted_unique(t1, t2, lt);
        assert(s1 =~= seq![s1[0]] + t1);
        assert(s2 =~= seq![s2[0]] + t2);
    }
}

/// `member_before` over `results`, as a relation.
pub open spec fn before_in(results: Seq<PlacementResult>) -> spec_fn(usize, usize) -> bool {
    |x: usize, y: usize| member_before(results, x, y)
}

/// `s` lists the members of `group`, each once, in the order of `member_before`.
pub open spec fn in_member_order(results: Seq<PlacementResult>, group: Seq<usize>, s: Seq<usize>) -> bool {
    &&& strictly_sorted(s, before_in(results))
    &&& forall|x: usize| s.contains(x) <==> group.contains(x)
}

fn name_less(a: &String, b: &String) -> (r: bool)
    ensures
        r == name_lt(a@, b@),
{
    let ca = chars_of(a.as_str());
    let cb = chars_of(b.as_str());
    let la = ca.len();
    let lb = cb.len();
    let mut i: usize = 0;
    proof {
        assert(a@.subrange(0, la as int) =~= a@);
        assert(b@.subrange(0, lb as int) =~= b@);
    }
    while i < la && i < lb && ca[i] == cb[i]
        invariant
            ca@ == a@,
            cb@ == b@,
            la == a@.len(),
            lb == b@.len(),
            i <= la,
            i <= lb,
            name_lt(a@, b@) == name_lt(a@.subrange(i as int, la as int), b@.subrange(i as int, lb as int)),
        decreases la - i,
    {
        proof {
            let sa = a@.subrange(i as int, la as int);
            let sb = b@.subrange(i as int, lb as int);
            assert(sa[0] == sb[0]);
            assert(sa.drop_first() =~= a@.subrange(i + 1, la as int));
            assert(sb.drop_first() =~= b@.subrange(i + 1, lb as int));
        }
        i = i + 1;
    }
    proof {
        let sa = a@.subrange(i as int, la as int);
        let sb = b@.subrange(i as int, lb as int);
        if i < la && i < lb {
            assert(sa[0] == a@[i as int] && sb[0] == b@[i as int]);
        }
    }
    if i == la {
        i < lb
    } else if i == lb {
        false
    } else {
        (ca[i] as u32) < (cb[i] as u32)
    }
}

fn member_before_exec(results: &[PlacementResult], x: usize, y: usize) -> (r: bool)
    requires
        x < results@.len(),
        y < results@.len(),
    ensures
        r == member_before(results@, x, y),
{
    let nx = &results[x].seq_name;
    let ny = &results[y].seq_name;
    let same = nx.eq(ny);
    name_less(nx, ny) || (same && x < y)
}

fn vec_has(v: &Vec<usize>, x: usize) -> (r: bool)
    ensures
        r == v@.contains(x),
{
    let mut k: usize = 0;
    while k < v.len()
        invariant
            k <= v@.len(),
            forall|q: int| 0 <= q < k ==> v@[q] != x,
        decreases v@.len() - k,
    {
        if v[k] == x {
            return true;
        }
        k = k + 1;
    }
    false
}

/// The members of a group, each once, ordered by sequence name and then index.
pub fn order_members(results: &[PlacementResult], members: &Vec<usize>) -> (r: Vec<usize>)
    requires
        forall|k: int| 0 <= k < members@.len() ==> #[trigger] members@[k] < results@.len(),
    ensures
        in_member_order(results@, members@, r@),
        forall|k: int| 0 <= k < r@.len() ==> #[trigger] r@[k] < results@.len(),
{
    proof {
        lemma_member_order(results@);
    }
    let ghost lt = before_in(results@);
    let mut v: Vec<usize> = Vec::new();
    let mut i: usize = 0;
    while i < members.len()
        invariant
            lt == before_in(results@),
            i <= members@.len(),
            forall|k: int| 0 <= k < members@.len() ==> #[trigger] members@[k] < results@.len(),
            forall|k: int| 0 <= k < v@.len() ==> #[trigger] v@[k] < results@.len(),
            strictly_sorted(v@, lt),
            forall|x: usize| v@.contains(x) <==> members@.subrange(0, i as int).contains(x),
        decreases members@.len() - i,
    {
        let x = members[i];
        let ghost old_v = v@;
        if !vec_has(&v, x) {
            let mut j: usize = v.len();
            while j > 0 && member_before_exec(results, x, v[j - 1])
                invariant
                    j <= v@.len(),
                    v@ == old_v,
                    x < results@.len(),
                    forall|k: int| 0 <= k < v@.len() ==> #[trigger] v@[k] < results@.len(),
                    forall|b: int| j <= b < v@.len() ==> member_before(results@, x, #[trigger] v@[b]),
                decreases j,
            {
                j = j - 1;
            }
            v.insert(j, x);
            proof {
                lemma_member_order(results@);
                assert(!old_v.contains(x));
                if j > 0 {
                    assert(member_before(results@, x, old_v[j - 1]) || member_before(results@, old_v[j - 1], x));
                    assert(x != old_v[j - 1]);
                    assert(member_before(results@, old_v[j - 1], x));
                }
                assert forall|a: int, b: int| 0 <= a < b < v@.len() implies #[trigger] lt(v@[a], v@[b]) by {
                    if b < j {
                        assert(lt(old_v[a], old_v[b]));
                    } else if b == j {
                        if a < j - 1 {
                            assert(lt(old_v[a], old_v[j - 1]));
                        }
                    } else if a == j {
                        assert(member_before(results@, x, old_v[b - 1]));
                    } else if a < j {
                        assert(lt(old_v[a], old_v[b - 1]));
                    } else {
                        assert(lt(old_v[a - 1], old_v[b - 1]));
                    }
                }
                assert forall|k: int| 0 <= k < v@.len() implies #[trigger] v@[k] < results@.len() by {
                    if k < j {
                        assert(v@[k] == old_v[k]);
                    } else if k > j {
                        assert(v@[k] == old_v[k - 1]);
                    }
                }
                assert forall|y: usize| v@.contains(y) <==> (old_v.contains(y) || y == x) by {
                    if v@.contains(y) && y != x {
                        let k = choose|k: int| 0 <= k < v@.len() && v@[k] == y;
                        if k < j {
                            assert(old_v[k] == y);
                        } else {
                            assert(old_v[k - 1] == y);
                        }
                    }
                    if old_v.contains(y) {
                        let k = choose|k: int| 0 <= k < old_v.len() && old_v[k] == y;
                        if k < j {
                            assert(v@[k] == y);
                        } else {
                            assert(v@[k + 1] == y);
                        }
                    }
                    assert(v@[j as int] == x);
                }
            }
        }
        proof {
            assert(members@.subrange(0, i + 1) =~= members@.subrange(0, i as int).push(x));
            assert forall|y: usize| v@.contains(y) <==> members@.subrange(0, i + 1).contains(y) by {
                assert(v@.contains(y) <==> (old_v.contains(y) || y == x));
                let pre = members@.subrange(0, i as int);
                let full = members@.subrange(0, i + 1);
                assert(full =~= pre.push(x));
                if full.contains(y) && y != x {
                    let k = choose|k: int| 0 <= k < full.len() && full[k] == y;
                    assert(pre[k] == y);
                }
                if pre.contains(y) {
                    let k = choose|k: int| 0 <= k < pre.len() && pre[k] == y;
                    assert(full[k] == y);
                }
                assert(full[i as int] == x);
            }
        }
        i = i + 1;
    }
    proof {
        assert(members@.subrange(0, i as int) =~= members@);
    }
    v
}

} // verus!
