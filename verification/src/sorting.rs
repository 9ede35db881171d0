//! Ordering subjects by a text key, and cutting a list into pages.
use vstd::prelude::*;
use crate::text::chars_of;

verus! {

broadcast use vstd::seq_lib::group_seq_properties;

/// Lexicographic order on texts, character by character by code point; a
/// prefix comes first.
pub open spec fn seq_le(a: Seq<char>, b: Seq<char>) -> bool
    decreases a.len(),
{
    if a.len() == 0 {
        true
    } else if b.len() == 0 {
        false
    } else if (a[0] as u32) < (b[0] as u32) {
        true
    } else if (a[0] as u32) > (b[0] as u32) {
        false
    } else {
        seq_le(a.drop_first(), b.drop_first())
    }
}

/// Any two texts are ordered one way or the other.
pub proof fn lemma_seq_le_total(a: Seq<char>, b: Seq<char>)
    ensures
        seq_le(a, b) || seq_le(b, a),
    decreases a.len(),
{
    if a.len() > 0 && b.len() > 0 && (a[0] as u32) == (b[0] as u32) {
        lemma_seq_le_total(a.drop_first(), b.drop_first());
    }
}

/// The order is transitive.
pub proof fn lemma_seq_le_trans(a: Seq<char>, b: Seq<char>, c: Seq<char>)
    requires
        seq_le(a, b),
        seq_le(b, c),
    ensures
        seq_le(a, c),
    decreases a.len(),
{
    if a.len() > 0 && b.len() > 0 && c.len() > 0 && (a[0] as u32) == (b[0] as u32) && (b[0] as u32) == (c[0] as u32) {
        lemma_seq_le_trans(a.drop_first(), b.drop_first(), c.drop_first());
    }
}

/// `a` may stand before `b`: ascending, or descending where `desc`.
pub open spec fn key_le(a: Seq<char>, b: Seq<char>, desc: bool) -> bool {
    if desc {
        seq_le(b, a)
    } else {
        seq_le(a, b)
    }
}

/// The keys are in order: ascending, or descending where `desc`.
pub open spec fn keys_sorted(keys: Seq<Seq<char>>, desc: bool) -> bool {
    forall|i: int, j: int| 0 <= i < j < keys.len() ==> key_le(#[trigger] keys[i], #[trigger] keys[j], desc)
}

/// The keys of a list of (key, subject) pairs.
pub open spec fn pair_keys(items: Seq<(Seq<char>, Seq<char>)>) -> Seq<Seq<char>> {
    items.map_values(|e: (Seq<char>, Seq<char>)| e.0)
}

/// The subjects of a list of (key, subject) pairs.
pub open spec fn pair_subjects(items: Seq<(Seq<char>, Seq<char>)>) -> Seq<Seq<char>> {
    items.map_values(|e: (Seq<char>, Seq<char>)| e.1)
}

/// The views of a list of (key, subject) pairs.
pub open spec fn pairs_view(items: Seq<(String, String)>) -> Seq<(Seq<char>, Seq<char>)> {
    items.map_values(|e: (String, String)| (e.0@, e.1@))
}

/// Whether `a` comes before or with `b` in the order of texts.
pub fn str_le(a: &str, b: &str) -> (r: bool)
    ensures
        r == seq_le(a@, b@),
{
    let x = chars_of(a);
    let y = chars_of(b);
    let mut i: usize = 0;
    while i < x.len()
        invariant
            x@ == a@,
            y@ == b@,
            i <= x@.len(),
            i <= y@.len(),
            seq_le(a@, b@) == seq_le(a@.skip(i as int), b@.skip(i as int)),
        decreases x.len() - i,
    {
        let ghost sa = a@.skip(i as int);
        let ghost sb = b@.skip(i as int);
        if i == y.len() {
            return false;
        }
        assert(sa[0] == x@[i as int] && sb[0] == y@[i as int]);
        let cx = x[i] as u32;
        let cy = y[i] as u32;
        if cx < cy {
            return true;
        }
        if cx > cy {
            return false;
        }
        assert(sa.drop_first() =~= a@.skip(i + 1));
        assert(sb.drop_first() =~= b@.skip(i + 1));
        i = i + 1;
    }
    true
}

/// Whether `a` may stand before `b` in the requested direction.
fn key_le_exec(a: &str, b: &str, desc: bool) -> (r: bool)
    ensures
        r == key_le(a@, b@, desc),
{
    if desc {
        str_le(b, a)
    } else {
        str_le(a, b)
    }
}

proof fn lemma_insert_sorted(keys: Seq<Seq<char>>, p: int, k: Seq<char>, desc: bool)
    requires
        keys_sorted(keys, desc),
        0 <= p <= keys.len(),
        forall|j: int| 0 <= j < p ==> key_le(#[trigger] keys[j], k, desc),
        p < keys.len() ==> !key_le(keys[p], k, desc),
    ensures
        keys_sorted(keys.insert(p, k), desc),
{
    let n = keys.insert(p, k);
    if p < keys.len() {
        if desc {
            lemma_seq_le_total(keys[p], k);
        } else {
            lemma_seq_le_total(k, keys[p]);
        }
    }
    assert forall|i: int, j: int| 0 <= i < j < n.len() implies key_le(#[trigger] n[i], #[trigger] n[j], desc) by {
        if i < p && j < p {
            assert(n[i] == keys[i] && n[j] == keys[j]);
        } else if i < p && j == p {
            assert(n[i] == keys[i]);
        } else if i < p {
            assert(n[i] == keys[i] && n[j] == keys[j - 1]);
            assert(key_le(keys[i], keys[j - 1], desc));
        } else if i == p {
            assert(n[j] == keys[j - 1]);
            if j - 1 > p {
                assert(key_le(keys[p], keys[j - 1], desc));
                if desc {
                    lemma_seq_le_trans(keys[j - 1], keys[p], k);
                } else {
                    lemma_seq_le_trans(k, keys[p], keys[j - 1]);
                }
            }
        } else {
            assert(n[i] == keys[i - 1] && n[j] == keys[j - 1]);
        }
    }
}

/// The pairs, reordered by key: ascending, or descending where `desc`.
pub fn sort_pairs(items: Vec<(String, String)>, desc: bool) -> (out: Vec<(String, String)>)
    ensures
        pair_subjects(pairs_view(out@)).to_multiset() == pair_subjects(pairs_view(items@)).to_multiset(),
        keys_sorted(pair_keys(pairs_view(out@)), desc),
        forall|i: int| 0 <= i < out@.len() ==> pairs_view(items@).contains(#[trigger] pairs_view(out@)[i]),
{
    let ghost iv = pairs_view(items@);
    let n = items.len();
    let mut out: Vec<(String, String)> = Vec::new();
    let mut k: usize = 0;
    while k < n
        invariant
            n == items@.len(),
            iv == pairs_view(items@),
            k <= n,
            pair_subjects(pairs_view(out@)).to_multiset() == pair_subjects(iv.take(k as int)).to_multiset(),
            keys_sorted(pair_keys(pairs_view(out@)), desc),
            forall|i: int| 0 <= i < out@.len() ==> iv.contains(#[trigger] pairs_view(out@)[i]),
        decreases n - k,
    {
        let key = items[k].0.clone();
        let subject = items[k].1.clone();
        let ghost x = (key@, subject@);
        assert(iv[k as int] == x);
        let ghost ov = pairs_view(out@);
        let mut p: usize = 0;
        while p < out.len() && key_le_exec(out[p].0.as_str(), key.as_str(), desc)
            invariant
                p <= out@.len(),
                ov == pairs_view(out@),
                forall|j: int| 0 <= j < p ==> key_le(#[trigger] pair_keys(ov)[j], key@, desc),
            decreases out.len() - p,
        {
            assert(pair_keys(ov)[p as int] == out@[p as int].0@);
            p = p + 1;
        }
        proof {
            if p < out@.len() {
                assert(pair_keys(ov)[p as int] == out@[p as int].0@);
            }
            lemma_insert_sorted(pair_keys(ov), p as int, key@, desc);
            assert(iv.take(k + 1) =~= iv.take(k as int).push(x));
            assert(pair_subjects(iv.take(k + 1)) =~= pair_subjects(iv.take(k as int)).push(x.1));
        }
        out.insert(p, (key, subject));
        assert(pairs_view(out@) =~= ov.insert(p as int, x));
        assert(pair_keys(pairs_view(out@)) =~= pair_keys(ov).insert(p as int, x.0));
        assert(pair_subjects(pairs_view(out@)) =~= pair_subjects(ov).insert(p as int, x.1));
        proof {
            vstd::seq_lib::to_multiset_insert(pair_subjects(ov), p as int, x.1);
            vstd::seq_lib::to_multiset_build(pair_subjects(iv.take(k as int)), x.1);
            assert forall|i: int| 0 <= i < out@.len() implies iv.contains(#[trigger] pairs_view(out@)[i]) by {
                if i < p {
                    assert(pairs_view(out@)[i] == ov[i]);
                } else if i == p {
                    assert(pairs_view(out@)[i] == iv[k as int]);
                } else {
                    assert(pairs_view(out@)[i] == ov[i - 1]);
                }
            }
        }
        k = k + 1;
    }
    assert(iv.take(n as int) =~= iv);
    out
}

/// The pages, one after the other.
pub open spec fn concat_pages(pages: Seq<Seq<Seq<char>>>) -> Seq<Seq<char>>
    decreases pages.len(),
{
    if pages.len() == 0 {
        Seq::empty()
    } else {
        concat_pages(pages.drop_last()) + pages.last()
    }
}

/// `pages` cut `members` into pages of `size`: in order, none empty, all
/// but the last full. A size of 0 puts every member on one page.
pub open spec fn paged(pages: Seq<Seq<Seq<char>>>, members: Seq<Seq<char>>, size: nat) -> bool {
    &&& concat_pages(pages) == members
    &&& forall|i: int| 0 <= i < pages.len() ==> #[trigger] pages[i].len() > 0
    &&& size > 0 ==> forall|i: int| 0 <= i < pages.len() ==> #[trigger] pages[i].len() <= size
    &&& size > 0 ==> forall|i: int| 0 <= i < pages.len() - 1 ==> #[trigger] pages[i].len() == size
    &&& size == 0 ==> pages.len() <= 1
}

/// The views of a list of pages of strings.
pub open spec fn pages_view(pages: Seq<Vec<String>>) -> Seq<Seq<Seq<char>>> {
    pages.map_values(|p: Vec<String>| p@.map_values(|s: String| s@))
}

/// Cuts `members` into pages of `size` members, the last possibly shorter;
/// a size of 0 puts every member on one page.
pub fn paginate(members: Vec<String>, size: usize) -> (pages: Vec<Vec<String>>)
    ensures
        paged(pages_view(pages@), members@.map_values(|s: String| s@), size as nat),
{
    let ghost mv = members@.map_values(|s: String| s@);
    let n = members.len();
    let mut pages: Vec<Vec<String>> = Vec::new();
    let mut current: Vec<String> = Vec::new();
    let mut i: usize = 0;
    while i < n
        invariant
            n == members@.len(),
            mv == members@.map_values(|s: String| s@),
            i <= n,
            concat_pages(pages_view(pages@)) + current@.map_values(|s: String| s@) == mv.take(i as int),
            forall|j: int| 0 <= j < pages@.len() ==> #[trigger] pages_view(pages@)[j].len() > 0,
            size > 0 ==> forall|j: int| 0 <= j < pages@.len() ==> #[trigger] pages_view(pages@)[j].len() == size,
            size > 0 ==> current@.len() < size,
            size == 0 ==> pages@.len() == 0,
        decreases n - i,
    {
        let ghost before_cur = current@.map_values(|s: String| s@);
        let m = members[i].clone();
        current.push(m);
        assert(current@.map_values(|s: String| s@) =~= before_cur.push(m@));
        assert(mv.take(i + 1) =~= mv.take(i as int).push(mv[i as int]));
        if size > 0 && current.len() == size {
            let ghost before = pages_view(pages@);
            let ghost cv = current@.map_values(|s: String| s@);
            let mut full: Vec<String> = Vec::new();
            std::mem::swap(&mut full, &mut current);
            pages.push(full);
            assert(pages_view(pages@) =~= before.push(cv));
            assert(pages_view(pages@).drop_last() =~= before);
            assert(current@.map_values(|s: String| s@) =~= Seq::<Seq<char>>::empty());
            assert(concat_pages(pages_view(pages@)) =~= concat_pages(before) + cv);
        }
        i = i + 1;
    }
    assert(mv.take(n as int) =~= mv);
    if current.len() > 0 {
        let ghost before = pages_view(pages@);
        let ghost cv = current@.map_values(|s: String| s@);
        pages.push(current);
        assert(pages_view(pages@) =~= before.push(cv));
        assert(pages_view(pages@).drop_last() =~= before);
    } else {
        assert(current@.map_values(|s: String| s@) =~= Seq::<Seq<char>>::empty());
        assert(concat_pages(pages_view(pages@)) + Seq::<Seq<char>>::empty() =~= concat_pages(pages_view(pages@)));
    }
    pages
}

} // verus!
