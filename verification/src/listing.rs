//! The files of a folder in the order the viewer steps through them:
//! sorted by file name, stably. Paths and names are the bytes of their
//! operating-system strings, so that names that are not UTF-8 keep their
//! order and identity.

use vstd::prelude::*;

verus! {

/// Strict lexicographic order of byte strings (the order of `OsStr` on
/// Unix, by its bytes).
pub open spec fn bytes_lt(a: Seq<u8>, b: Seq<u8>) -> bool
    decreases a.len(),
{
    if a.len() == 0 {
        b.len() > 0
    } else if b.len() == 0 {
        false
    } else if a[0] != b[0] {
        a[0] < b[0]
    } else {
        bytes_lt(a.drop_first(), b.drop_first())
    }
}

proof fn lemma_bytes_lt_first_difference(a: Seq<u8>, b: Seq<u8>, i: int)
    requires
        0 <= i < a.len(),
        i < b.len(),
        a.take(i) == b.take(i),
        a[i] != b[i],
    ensures
        bytes_lt(a, b) <==> a[i] < b[i],
    decreases i,
{
    if i > 0 {
        assert(a[0] == a.take(i)[0] && b[0] == b.take(i)[0]);
        assert(a.drop_first().take(i - 1) =~= a.take(i).drop_first());
        assert(b.drop_first().take(i - 1) =~= b.take(i).drop_first());
        lemma_bytes_lt_first_difference(a.drop_first(), b.drop_first(), i - 1);
    }
}

proof fn lemma_bytes_lt_prefix(a: Seq<u8>, b: Seq<u8>)
    requires
        a.len() <= b.len(),
        b.take(a.len() as int) == a,
    ensures
        bytes_lt(a, b) <==> a.len() < b.len(),
        !bytes_lt(b, a),
    decreases a.len(),
{
    if a.len() > 0 {
        assert(a[0] == b.take(a.len() as int)[0]);
        assert(b.drop_first().take(a.len() - 1) =~= a.drop_first());
        lemma_bytes_lt_prefix(a.drop_first(), b.drop_first());
    }
}

/// The order of names is the lexicographic order of their bytes: at the
/// first byte where two names differ, the smaller byte comes first, and a
/// name that is a proper prefix of another comes before it (so `README`
/// before `README.md`).
pub proof fn lemma_bytes_lt_lexicographic(a: Seq<u8>, b: Seq<u8>)
    ensures
        forall|i: int|
            0 <= i < a.len() && i < b.len() && a.take(i) == b.take(i) && a[i] != b[i] ==> (bytes_lt(a, b)
                <==> #[trigger] a[i] < #[trigger] b[i]),
        forall|t: Seq<u8>| t.len() > 0 ==> bytes_lt(a, #[trigger] (a + t)) && !bytes_lt(a + t, a),
        !bytes_lt(a, a),
{
    assert forall|i: int|
        0 <= i < a.len() && i < b.len() && a.take(i) == b.take(i) && a[i] != b[i] implies (bytes_lt(a, b)
            <==> #[trigger] a[i] < #[trigger] b[i]) by {
        lemma_bytes_lt_first_difference(a, b, i);
    }
    assert forall|t: Seq<u8>| t.len() > 0 implies bytes_lt(a, #[trigger] (a + t)) && !bytes_lt(a + t, a) by {
        assert((a + t).take(a.len() as int) =~= a);
        lemma_bytes_lt_prefix(a, a + t);
    }
    lemma_bytes_lt_irreflexive(a);
}

/// Order of file names; a path without a file name comes first.
pub open spec fn name_lt(a: Option<Seq<u8>>, b: Option<Seq<u8>>) -> bool {
    match (a, b) {
        (None, Some(_)) => true,
        (Some(x), Some(y)) => bytes_lt(x, y),
        _ => false,
    }
}

/// A listing entry: a file's name and its path.
pub type Entry = (Option<Seq<u8>>, Seq<u8>);

/// Where an entry with name `key` goes in a sorted sequence: after every
/// entry whose name is not greater.
pub open spec fn insert_pos(s: Seq<Entry>, key: Option<Seq<u8>>) -> int
    decreases s.len(),
{
    if s.len() == 0 {
        0
    } else if name_lt(key, s.last().0) {
        insert_pos(s.drop_last(), key)
    } else {
        s.len() as int
    }
}

/// Stable sort by file name, by insertion in the order of `s`.
pub open spec fn sort_by_name(s: Seq<Entry>) -> Seq<Entry>
    decreases s.len(),
{
    if s.len() == 0 {
        s
    } else {
        let sorted = sort_by_name(s.drop_last());
        sorted.insert(insert_pos(sorted, s.last().0), s.last())
    }
}

/// A file of a folder: its name (`Path::file_name`, absent for a path
/// that ends in `..` or is a root) and its path, as bytes.
pub struct ListedFile {
    pub name: Option<Vec<u8>>,
    pub path: Vec<u8>,
}

/// The bytes of an optional byte vector.
pub open spec fn opt_bytes(o: Option<Vec<u8>>) -> Option<Seq<u8>> {
    match o {
        Some(v) => Some(v@),
        None => None,
    }
}

/// The entry of a listed file.
pub open spec fn entry_of(f: ListedFile) -> Entry {
    (opt_bytes(f.name), f.path@)
}

/// The entries of a listing.
pub open spec fn entries_of(files: Seq<ListedFile>) -> Seq<Entry> {
    files.map_values(|f: ListedFile| entry_of(f))
}

/// The paths of a listing in the order the viewer steps through them.
pub open spec fn listing_order(entries: Seq<Entry>) -> Seq<Seq<u8>> {
    sort_by_name(entries).map_values(|e: Entry| e.1)
}

/// The bytes of each vector.
pub open spec fn byte_views(v: Seq<Vec<u8>>) -> Seq<Seq<u8>> {
    v.map_values(|b: Vec<u8>| b@)
}

fn bytes_less(a: &Vec<u8>, b: &Vec<u8>) -> (res: bool)
    ensures
        res == bytes_lt(a@, b@),
{
    let mut i: usize = 0;
    assert(a@.skip(0) =~= a@);
    assert(b@.skip(0) =~= b@);
    loop
        invariant
            i <= a@.len(),
            i <= b@.len(),
            bytes_lt(a@, b@) == bytes_lt(a@.skip(i as int), b@.skip(i as int)),
        decreases a@.len() - i,
    {
        if i == a.len() {
            return i < b.len();
        }
        if i == b.len() {
            return false;
        }
        assert(a@.skip(i as int)[0] == a@[i as int]);
        assert(b@.skip(i as int)[0] == b@[i as int]);
        if a[i] != b[i] {
            return a[i] < b[i];
        }
        assert(a@.skip(i as int).drop_first() =~= a@.skip(i + 1));
        assert(b@.skip(i as int).drop_first() =~= b@.skip(i + 1));
        i = i + 1;
    }
}

fn name_less(a: &Option<Vec<u8>>, b: &Option<Vec<u8>>) -> (res: bool)
    ensures
        res == name_lt(opt_bytes(*a), opt_bytes(*b)),
{
    match (a, b) {
        (None, Some(_)) => true,
        (Some(x), Some(y)) => bytes_less(x, y),
        _ => false,
    }
}

/// `s` is the view of the parallel vectors of names and paths.
pub open spec fn entries_match(s: Seq<Entry>, keys: Seq<Option<Vec<u8>>>, paths: Seq<Vec<u8>>) -> bool {
    &&& s.len() == keys.len()
    &&& s.len() == paths.len()
    &&& forall|j: int| 0 <= j < s.len() ==> #[trigger] s[j] == (opt_bytes(keys[j]), paths[j]@)
}

/// Finds `insert_pos` by scanning from the back.
fn find_insert_pos(keys: &Vec<Option<Vec<u8>>>, key: &Option<Vec<u8>>, Ghost(sorted): Ghost<Seq<Entry>>) -> (p: usize)
    requires
        sorted.len() == keys@.len(),
        forall|j: int| 0 <= j < sorted.len() ==> #[trigger] sorted[j].0 == opt_bytes(keys@[j]),
    ensures
        p == insert_pos(sorted, opt_bytes(*key)),
        p <= keys@.len(),
{
    let ghost kv = opt_bytes(*key);
    let mut p: usize = keys.len();
    assert(sorted.take(p as int) =~= sorted);
    while p > 0 && name_less(key, &keys[p - 1])
        invariant
            p <= keys@.len(),
            sorted.len() == keys@.len(),
            forall|j: int| 0 <= j < sorted.len() ==> #[trigger] sorted[j].0 == opt_bytes(keys@[j]),
            kv == opt_bytes(*key),
            insert_pos(sorted, kv) == insert_pos(sorted.take(p as int), kv),
        decreases p,
    {
        assert(sorted.take(p as int).drop_last() =~= sorted.take(p - 1));
        assert(sorted.take(p as int).last() == sorted[p - 1]);
        assert(sorted[p - 1].0 == opt_bytes(keys@[p - 1]));
        p = p - 1;
    }
    proof {
        if p > 0 {
            assert(sorted.take(p as int).last() == sorted[p - 1]);
            assert(sorted[p - 1].0 == opt_bytes(keys@[p - 1]));
        }
    }
    p
}

proof fn lemma_insert_matches(
    s: Seq<Entry>,
    keys: Seq<Option<Vec<u8>>>,
    paths: Seq<Vec<u8>>,
    p: int,
    k: Option<Vec<u8>>,
    path: Vec<u8>,
)
    requires
        entries_match(s, keys, paths),
        0 <= p <= s.len(),
    ensures
        entries_match(s.insert(p, (opt_bytes(k), path@)), keys.insert(p, k), paths.insert(p, path)),
{
    let ns = s.insert(p, (opt_bytes(k), path@));
    let nk = keys.insert(p, k);
    let np = paths.insert(p, path);
    assert forall|j: int| 0 <= j < ns.len() implies #[trigger] ns[j] == (opt_bytes(nk[j]), np[j]@) by {
        if j < p {
            assert(ns[j] == s[j]);
        } else if j > p {
            assert(ns[j] == s[j - 1]);
            assert(nk[j] == keys[j - 1]);
            assert(np[j] == paths[j - 1]);
        }
    }
}

/// Sorts the files of a listing by name, keeping the listing's order among
/// equal names, and gives their paths (see `listing_order`).
pub fn sort_listing(files: Vec<ListedFile>) -> (sorted: Vec<Vec<u8>>)
    ensures
        byte_views(sorted@) == listing_order(entries_of(files@)),
{
    let ghost input = entries_of(files@);
    let mut keys: Vec<Option<Vec<u8>>> = Vec::new();
    let mut out: Vec<Vec<u8>> = Vec::new();
    let n = files.len();
    let mut i: usize = 0;
    assert(input.take(0) =~= Seq::<Entry>::empty());
    while i < n
        invariant
            n == files@.len(),
            input == entries_of(files@),
            i <= n,
            entries_match(sort_by_name(input.take(i as int)), keys@, out@),
        decreases n - i,
    {
        let key: Option<Vec<u8>> = match &files[i].name {
            Some(name) => Some(name.clone()),
            None => None,
        };
        let path = files[i].path.clone();
        let ghost sorted = sort_by_name(input.take(i as int));
        assert(input[i as int] == (opt_bytes(key), path@));
        let p = find_insert_pos(&keys, &key, Ghost(sorted));
        proof {
            lemma_insert_matches(sorted, keys@, out@, p as int, key, path);
            assert(input.take(i + 1).drop_last() =~= input.take(i as int));
            assert(input.take(i + 1).last() == input[i as int]);
        }
        keys.insert(p, key);
        out.insert(p, path);
        i = i + 1;
    }
    assert(input.take(n as int) =~= input);
    assert(byte_views(out@) =~= listing_order(entries_of(files@)));
    out
}

proof fn lemma_bytes_lt_irreflexive(a: Seq<u8>)
    ensures
        !bytes_lt(a, a),
    decreases a.len(),
{
    if a.len() > 0 {
        lemma_bytes_lt_irreflexive(a.drop_first());
    }
}

proof fn lemma_bytes_lt_transitive(a: Seq<u8>, b: Seq<u8>, c: Seq<u8>)
    requires
        bytes_lt(a, b),
        bytes_lt(b, c),
    ensures
        bytes_lt(a, c),
    decreases a.len(),
{
    if a.len() > 0 && b.len() > 0 && c.len() > 0 && a[0] == b[0] && b[0] == c[0] {
        lemma_bytes_lt_transitive(a.drop_first(), b.drop_first(), c.drop_first());
    }
}

proof fn lemma_bytes_lt_total(a: Seq<u8>, b: Seq<u8>)
    requires
        a != b,
    ensures
        bytes_lt(a, b) || bytes_lt(b, a),
    decreases a.len(),
{
    if a.len() > 0 && b.len() > 0 && a[0] == b[0] {
        if a.drop_first() == b.drop_first() {
            assert(a =~= seq![a[0]] + a.drop_first());
            assert(b =~= seq![b[0]] + b.drop_first());
        }
        lemma_bytes_lt_total(a.drop_first(), b.drop_first());
    } else if a.len() == 0 && b.len() == 0 {
        assert(a =~= b);
    }
}

proof fn lemma_name_lt_irreflexive(a: Option<Seq<u8>>)
    ensures
        !name_lt(a, a),
{
    if let Some(x) = a {
        lemma_bytes_lt_irreflexive(x);
    }
}

proof fn lemma_name_lt_transitive(a: Option<Seq<u8>>, b: Option<Seq<u8>>, c: Option<Seq<u8>>)
    requires
        name_lt(a, b),
        name_lt(b, c),
    ensures
        name_lt(a, c),
{
    if let (Some(x), Some(y), Some(z)) = (a, b, c) {
        lemma_bytes_lt_transitive(x, y, z);
    }
}

proof fn lemma_name_lt_total(a: Option<Seq<u8>>, b: Option<Seq<u8>>)
    requires
        a != b,
    ensures
        name_lt(a, b) || name_lt(b, a),
{
    if let (Some(x), Some(y)) = (a, b) {
        lemma_bytes_lt_total(x, y);
    }
}

/// No entry is followed by one whose name is smaller.
pub open spec fn sorted_by_name(s: Seq<Entry>) -> bool {
    forall|i: int, j: int| 0 <= i < j < s.len() ==> !name_lt(#[trigger] s[j].0, #[trigger] s[i].0)
}

proof fn lemma_insert_pos(s: Seq<Entry>, k: Option<Seq<u8>>)
    ensures
        0 <= insert_pos(s, k) <= s.len(),
        forall|i: int| insert_pos(s, k) <= i < s.len() ==> name_lt(k, #[trigger] s[i].0),
        insert_pos(s, k) > 0 ==> !name_lt(k, s[insert_pos(s, k) - 1].0),
    decreases s.len(),
{
    if s.len() > 0 && name_lt(k, s.last().0) {
        lemma_insert_pos(s.drop_last(), k);
        let p = insert_pos(s, k);
        assert forall|i: int| p <= i < s.len() implies name_lt(k, #[trigger] s[i].0) by {
            if i < s.len() - 1 {
                assert(s.drop_last()[i] == s[i]);
            }
        }
        if p > 0 {
            assert(s.drop_last()[p - 1] == s[p - 1]);
        }
    }
}

proof fn lemma_insert_keeps_sorted(s: Seq<Entry>, x: Entry)
    requires
        sorted_by_name(s),
    ensures
        sorted_by_name(s.insert(insert_pos(s, x.0), x)),
{
    let k = x.0;
    let p = insert_pos(s, k);
    lemma_insert_pos(s, k);
    let ns = s.insert(p, x);
    assert(ns.len() == s.len() + 1);
    assert forall|i: int| 0 <= i < p implies !name_lt(k, #[trigger] s[i].0) by {
        let m = s[p - 1].0;
        let a = s[i].0;
        if name_lt(k, a) {
            if i < p - 1 {
                assert(!name_lt(m, a));
            }
            if m != k {
                lemma_name_lt_total(m, k);
            }
            if a != m {
                lemma_name_lt_total(a, m);
            }
            if a == m && m == k {
                lemma_name_lt_irreflexive(k);
            } else if a == m {
                lemma_name_lt_transitive(k, a, k);
                lemma_name_lt_irreflexive(k);
            } else if m == k {
                lemma_name_lt_transitive(k, a, k);
                lemma_name_lt_irreflexive(k);
            } else {
                lemma_name_lt_transitive(a, m, k);
                lemma_name_lt_transitive(k, a, k);
                lemma_name_lt_irreflexive(k);
            }
        }
    }
    assert forall|i: int, j: int| 0 <= i < j < ns.len() implies !name_lt(#[trigger] ns[j].0, #[trigger] ns[i].0) by {
        if j < p {
            assert(ns[j] == s[j] && ns[i] == s[i]);
        } else if j == p {
            assert(ns[i] == s[i]);
        } else if i == p {
            assert(ns[j] == s[j - 1]);
            let b = s[j - 1].0;
            assert(name_lt(k, b));
            if name_lt(b, k) {
                lemma_name_lt_transitive(k, b, k);
                lemma_name_lt_irreflexive(k);
            }
        } else if i < p {
            assert(ns[j] == s[j - 1] && ns[i] == s[i]);
        } else {
            assert(ns[j] == s[j - 1] && ns[i] == s[i - 1]);
        }
    }
}

proof fn lemma_sort_sorted(s: Seq<Entry>)
    ensures
        sorted_by_name(sort_by_name(s)),
    decreases s.len(),
{
    if s.len() > 0 {
        lemma_sort_sorted(s.drop_last());
        lemma_insert_keeps_sorted(sort_by_name(s.drop_last()), s.last());
    }
}

proof fn lemma_sort_permutes(s: Seq<Entry>)
    ensures
        sort_by_name(s).map_values(|e: Entry| e.1).to_multiset() == s.map_values(|e: Entry| e.1).to_multiset(),
        forall|i: int| 0 <= i < sort_by_name(s).len() ==> s.contains(#[trigger] sort_by_name(s)[i]),
        sort_by_name(s).len() == s.len(),
    decreases s.len(),
{
    broadcast use vstd::seq_lib::group_to_multiset_ensures;
    if s.len() > 0 {
        let rest = s.drop_last();
        lemma_sort_permutes(rest);
        let sorted = sort_by_name(rest);
        let p = insert_pos(sorted, s.last().0);
        lemma_insert_pos(sorted, s.last().0);
        let f = |e: Entry| e.1;
        assert(sorted.insert(p, s.last()).map_values(f) =~= sorted.map_values(f).insert(p, s.last().1));
        vstd::seq_lib::to_multiset_insert(sorted.map_values(f), p, s.last().1);
        assert(s.map_values(f) =~= rest.map_values(f).push(s.last().1));
        let ns = sort_by_name(s);
        assert forall|i: int| 0 <= i < ns.len() implies s.contains(#[trigger] ns[i]) by {
            if i < p {
                assert(ns[i] == sorted[i]);
                let w = choose|w: int| 0 <= w < rest.len() && rest[w] == sorted[i];
                assert(s[w] == rest[w]);
            } else if i == p {
                assert(s[s.len() - 1] == s.last());
            } else {
                assert(ns[i] == sorted[i - 1]);
                let w = choose|w: int| 0 <= w < rest.len() && rest[w] == sorted[i - 1];
                assert(s[w] == rest[w]);
            }
        }
    }
}

/// The viewer's order of a listing is by file name: it is the listing's
/// entries sorted so that no entry is followed by one whose name is
/// smaller, each path coming with the name it was listed with.
pub proof fn lemma_listing_order_sorted(entries: Seq<Entry>)
    ensures
        listing_order(entries).len() == entries.len(),
        forall|i: int|
            0 <= i < entries.len() ==> #[trigger] listing_order(entries)[i] == sort_by_name(entries)[i].1
                && entries.contains(sort_by_name(entries)[i]),
        forall|i: int, j: int|
            0 <= i < j < entries.len() ==> !name_lt(
                (#[trigger] sort_by_name(entries)[j]).0,
                (#[trigger] sort_by_name(entries)[i]).0,
            ),
{
    lemma_sort_sorted(entries);
    lemma_sort_permutes(entries);
}

/// The viewer's order of a listing holds every path of the listing, as
/// often as the listing does.
pub proof fn lemma_listing_order_permutes(entries: Seq<Entry>)
    ensures
        listing_order(entries).to_multiset() == entries.map_values(|e: Entry| e.1).to_multiset(),
{
    lemma_sort_permutes(entries);
}

/// Entries whose name is `name`.
pub open spec fn named(name: Option<Seq<u8>>) -> spec_fn(Entry) -> bool {
    |e: Entry| e.0 == name
}

proof fn lemma_filter_none<A>(s: Seq<A>, pred: spec_fn(A) -> bool)
    requires
        forall|i: int| 0 <= i < s.len() ==> !pred(#[trigger] s[i]),
    ensures
        s.filter(pred) == Seq::<A>::empty(),
    decreases s.len(),
{
    reveal(Seq::filter);
    if s.len() > 0 {
        lemma_filter_none(s.drop_last(), pred);
        assert(!pred(s[s.len() - 1]));
    }
}

/// The viewer's order is stable: entries with the same name come in the
/// order they have in the listing.
pub proof fn lemma_listing_order_stable(s: Seq<Entry>, name: Option<Seq<u8>>)
    ensures
        sort_by_name(s).filter(named(name)) == s.filter(named(name)),
    decreases s.len(),
{
    reveal(Seq::filter);
    if s.len() > 0 {
        let pk = named(name);
        let rest = s.drop_last();
        let x = s.last();
        lemma_listing_order_stable(rest, name);
        let sorted = sort_by_name(rest);
        let p = insert_pos(sorted, x.0);
        lemma_insert_pos(sorted, x.0);
        let front = sorted.take(p);
        let back = sorted.skip(p);
        assert(sorted =~= front + back);
        assert(sorted.insert(p, x) =~= front + seq![x] + back);
        Seq::filter_distributes_over_add(front, back, pk);
        Seq::filter_distributes_over_add(front + seq![x], back, pk);
        Seq::filter_distributes_over_add(front, seq![x], pk);
        assert(seq![x].drop_last() =~= Seq::<Entry>::empty());
        assert(Seq::<Entry>::empty().filter(pk) =~= Seq::<Entry>::empty());
        if x.0 == name {
            assert forall|i: int| 0 <= i < back.len() implies !pk(#[trigger] back[i]) by {
                assert(back[i] == sorted[p + i]);
                assert(name_lt(x.0, sorted[p + i].0));
                lemma_name_lt_irreflexive(x.0);
            }
            lemma_filter_none(back, pk);
            assert(seq![x].filter(pk) =~= seq![x]);
        } else {
            assert(!pk(x));
            assert(seq![x].filter(pk) =~= Seq::<Entry>::empty());
        }
    }
}

} // verus!
