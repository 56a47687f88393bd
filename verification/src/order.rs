//! The order in which file names are kept and listed.
//!
//! Names are ordered as Rust orders strings: by the bytes of their UTF-8
//! encoding, the first byte that differs deciding, and a proper prefix coming
//! before what it is a prefix of.

use vstd::prelude::*;
use vstd::utf8::*;

verus! {

/// `a` comes strictly before `b` in byte-wise lexicographic order.
pub open spec fn bytes_less(a: Seq<u8>, b: Seq<u8>) -> bool
    decreases a.len(),
{
    if b.len() == 0 {
        false
    } else if a.len() == 0 {
        true
    } else if a[0] != b[0] {
        a[0] < b[0]
    } else {
        bytes_less(a.drop_first(), b.drop_first())
    }
}

/// The name `a` comes strictly before the name `b`.
pub open spec fn name_less(a: Seq<char>, b: Seq<char>) -> bool {
    bytes_less(encode_utf8(a), encode_utf8(b))
}

/// Every element of `names` comes strictly before all that follow it.
pub open spec fn strictly_ascending(names: Seq<Seq<char>>) -> bool {
    forall|i: int, j: int| 0 <= i < j < names.len() ==> name_less(names[i], names[j])
}

/// `listing` lists exactly the names in `names`, each once, in ascending
/// order.
pub open spec fn lists(listing: Seq<Seq<char>>, names: Set<Seq<char>>) -> bool {
    strictly_ascending(listing) && listing.to_set() == names
}

/// The one ascending listing of the names in `names`.
pub open spec fn ascending_listing(names: Set<Seq<char>>) -> Seq<Seq<char>> {
    choose|listing: Seq<Seq<char>>| strictly_ascending(listing) && listing.to_set() == names
}

/// How one name stands to another.
#[derive(Debug, Clone, Copy, PartialEq, Eq)]
pub enum Rank {
    Before,
    Same,
    After,
}

/// Nothing comes before itself.
pub proof fn lemma_bytes_less_irreflexive(a: Seq<u8>)
    ensures
        !bytes_less(a, a),
    decreases a.len(),
{
    if a.len() > 0 {
        lemma_bytes_less_irreflexive(a.drop_first());
    }
}

/// The order is transitive.
pub proof fn lemma_bytes_less_transitive(a: Seq<u8>, b: Seq<u8>, c: Seq<u8>)
    requires
        bytes_less(a, b),
        bytes_less(b, c),
    ensures
        bytes_less(a, c),
    decreases a.len(),
{
    if a.len() > 0 && a[0] == b[0] && b[0] == c[0] {
        lemma_bytes_less_transitive(a.drop_first(), b.drop_first(), c.drop_first());
    }
}

/// Of two different byte strings one comes before the other.
pub proof fn lemma_bytes_less_total(a: Seq<u8>, b: Seq<u8>)
    requires
        a != b,
    ensures
        bytes_less(a, b) || bytes_less(b, a),
    decreases a.len(),
{
    if a.len() > 0 && b.len() > 0 && a[0] == b[0] {
        if a.drop_first() == b.drop_first() {
            assert(a =~= seq![a[0]] + a.drop_first());
            assert(b =~= seq![b[0]] + b.drop_first());
        }
        lemma_bytes_less_total(a.drop_first(), b.drop_first());
    } else if a.len() == 0 && b.len() == 0 {
        assert(a =~= b);
    }
}

/// Of two different names one comes before the other.
pub proof fn lemma_name_less_total(a: Seq<char>, b: Seq<char>)
    requires
        a != b,
    ensures
        name_less(a, b) || name_less(b, a),
{
    if encode_utf8(a) == encode_utf8(b) {
        lemma_encoding_decides_name(a, b);
    }
    lemma_bytes_less_total(encode_utf8(a), encode_utf8(b));
}

/// No name comes before itself.
pub proof fn lemma_name_less_irreflexive(a: Seq<char>)
    ensures
        !name_less(a, a),
{
    lemma_bytes_less_irreflexive(encode_utf8(a));
}

/// The order on names is transitive.
pub proof fn lemma_name_less_transitive(a: Seq<char>, b: Seq<char>, c: Seq<char>)
    requires
        name_less(a, b),
        name_less(b, c),
    ensures
        name_less(a, c),
{
    lemma_bytes_less_transitive(encode_utf8(a), encode_utf8(b), encode_utf8(c));
}

/// Two names with the same encoding are the same name.
pub proof fn lemma_encoding_decides_name(a: Seq<char>, b: Seq<char>)
    requires
        encode_utf8(a) == encode_utf8(b),
    ensures
        a == b,
{
    encode_utf8_decode_utf8(a);
    encode_utf8_decode_utf8(b);
}

/// An ascending listing is determined by the names in it.
pub proof fn lemma_ascending_listing_unique(a: Seq<Seq<char>>, b: Seq<Seq<char>>)
    requires
        strictly_ascending(a),
        strictly_ascending(b),
        a.to_set() == b.to_set(),
    ensures
        a == b,
    decreases a.len(),
{
    if a.len() == 0 {
        if b.len() > 0 {
            assert(b.contains(b[0]));
            assert(a.to_set().contains(b[0]));
        }
        assert(a =~= b);
    } else {
        assert(a.contains(a[0]));
        assert(b.to_set().contains(a[0]));
        let k = choose|k: int| 0 <= k < b.len() && b[k] == a[0];
        assert(b.contains(b[0]));
        assert(a.to_set().contains(b[0]));
        let m = choose|m: int| 0 <= m < a.len() && a[m] == b[0];
        lemma_name_less_irreflexive(a[0]);
        if k > 0 && m > 0 {
            lemma_name_less_transitive(a[0], b[0], a[0]);
        }
        assert(a[0] == b[0]);
        let ta = a.drop_first();
        let tb = b.drop_first();
        assert forall|x: Seq<char>| ta.contains(x) <==> tb.contains(x) by {
            if ta.contains(x) {
                let p = choose|p: int| 0 <= p < ta.len() && ta[p] == x;
                assert(a[p + 1] == x);
                assert(a.contains(x));
                assert(b.to_set().contains(x));
                let q = choose|q: int| 0 <= q < b.len() && b[q] == x;
                assert(q > 0);
                assert(tb[q - 1] == x);
            }
            if tb.contains(x) {
                let q = choose|q: int| 0 <= q < tb.len() && tb[q] == x;
                assert(b[q + 1] == x);
                assert(b.contains(x));
                assert(a.to_set().contains(x));
                let p = choose|p: int| 0 <= p < a.len() && a[p] == x;
                assert(p > 0);
                assert(ta[p - 1] == x);
            }
        }
        assert(ta.to_set() =~= tb.to_set());
        lemma_ascending_listing_unique(ta, tb);
        assert(a =~= seq![a[0]] + ta);
        assert(b =~= seq![b[0]] + tb);
    }
}

/// A listing that is ascending is the ascending listing of its names.
pub proof fn lemma_ascending_listing_of(listing: Seq<Seq<char>>)
    requires
        strictly_ascending(listing),
    ensures
        ascending_listing(listing.to_set()) == listing,
{
    lemma_ascending_listing_unique(ascending_listing(listing.to_set()), listing);
}

/// `listing` with `name` put at its place, unless it is there already.
spec fn placed(listing: Seq<Seq<char>>, name: Seq<char>) -> Seq<Seq<char>>
    decreases listing.len(),
{
    if listing.len() == 0 {
        seq![name]
    } else if name == listing[0] {
        listing
    } else if name_less(name, listing[0]) {
        seq![name] + listing
    } else {
        seq![listing[0]] + placed(listing.drop_first(), name)
    }
}

/// A listing with a name in front holds that name and what the listing holds.
proof fn lemma_front_contains(head: Seq<char>, tail: Seq<Seq<char>>, x: Seq<char>)
    ensures
        (seq![head] + tail).contains(x) <==> x == head || tail.contains(x),
{
    let whole = seq![head] + tail;
    if whole.contains(x) {
        let k = choose|k: int| 0 <= k < whole.len() && whole[k] == x;
        if k > 0 {
            assert(tail[k - 1] == x);
        }
    }
    if x == head {
        assert(whole[0] == x);
    }
    if tail.contains(x) {
        let k = choose|k: int| 0 <= k < tail.len() && tail[k] == x;
        assert(whole[k + 1] == x);
    }
}

/// Putting a name at its place keeps a listing ascending and adds the name to
/// its members.
proof fn lemma_placed(listing: Seq<Seq<char>>, name: Seq<char>)
    requires
        strictly_ascending(listing),
    ensures
        strictly_ascending(placed(listing, name)),
        placed(listing, name).to_set() == listing.to_set().insert(name),
    decreases listing.len(),
{
    let put = placed(listing, name);
    if listing.len() == 0 {
        assert forall|x: Seq<char>| put.contains(x) <==> x == name by {
            lemma_front_contains(name, Seq::empty(), x);
            assert(put =~= seq![name] + Seq::<Seq<char>>::empty());
        }
        assert(put.to_set() =~= listing.to_set().insert(name));
    } else if name == listing[0] {
        assert(listing.contains(name));
        assert(put.to_set() =~= listing.to_set().insert(name));
    } else if name_less(name, listing[0]) {
        assert forall|i: int, j: int| 0 <= i < j < put.len() implies name_less(put[i], put[j]) by {
            if i == 0 && j > 1 {
                lemma_name_less_transitive(name, listing[0], listing[j - 1]);
            }
        }
        assert forall|x: Seq<char>| put.contains(x) <==> x == name || listing.contains(x) by {
            lemma_front_contains(name, listing, x);
        }
        assert(put.to_set() =~= listing.to_set().insert(name));
    } else {
        let head = listing[0];
        let tail = listing.drop_first();
        let rest = placed(tail, name);
        lemma_name_less_total(name, head);
        lemma_placed(tail, name);
        assert forall|x: Seq<char>| listing.contains(x) <==> x == head || tail.contains(x) by {
            lemma_front_contains(head, tail, x);
            assert(listing =~= seq![head] + tail);
        }
        assert forall|x: Seq<char>| put.contains(x) <==> x == head || rest.contains(x) by {
            lemma_front_contains(head, rest, x);
        }
        assert forall|x: Seq<char>| rest.contains(x) <==> x == name || tail.contains(x) by {
            assert(rest.to_set().contains(x) <==> tail.to_set().insert(name).contains(x));
        }
        assert forall|k: int| 0 <= k < rest.len() implies name_less(head, #[trigger] rest[k]) by {
            assert(rest.contains(rest[k]));
            if rest[k] != name {
                let m = choose|m: int| 0 <= m < tail.len() && tail[m] == rest[k];
                assert(listing[m + 1] == rest[k]);
            }
        }
        assert forall|i: int, j: int| 0 <= i < j < put.len() implies name_less(put[i], put[j]) by {
            if i == 0 {
                assert(put[j] == rest[j - 1]);
            } else {
                assert(put[i] == rest[i - 1] && put[j] == rest[j - 1]);
            }
        }
        assert(put.to_set() =~= listing.to_set().insert(name));
    }
}

/// Some ascending listing of a finite set of names.
proof fn some_ascending_listing(names: Set<Seq<char>>) -> (listing: Seq<Seq<char>>)
    requires
        names.finite(),
    ensures
        strictly_ascending(listing),
        listing.to_set() == names,
    decreases names.len(),
{
    if names.len() == 0 {
        names.lemma_len0_is_empty();
        let none = Seq::<Seq<char>>::empty();
        assert(none.to_set() =~= names);
        none
    } else {
        let name = names.choose();
        let others = some_ascending_listing(names.remove(name));
        lemma_placed(others, name);
        assert(names.remove(name).insert(name) =~= names);
        placed(others, name)
    }
}

/// Every finite set of names has an ascending listing: it is ascending and its
/// members are exactly the names in the set.
pub proof fn lemma_ascending_listing_exists(names: Set<Seq<char>>)
    requires
        names.finite(),
    ensures
        lists(ascending_listing(names), names),
{
    let listing = some_ascending_listing(names);
}

/// Compares two byte strings lexicographically.
pub fn compare_bytes(a: &[u8], b: &[u8]) -> (rank: Rank)
    ensures
        rank == Rank::Before <==> bytes_less(a@, b@),
        rank == Rank::Same <==> a@ == b@,
        rank == Rank::After <==> bytes_less(b@, a@),
{
    let mut i: usize = 0;
    proof {
        assert(a@.skip(0) =~= a@);
        assert(b@.skip(0) =~= b@);
    }
    while i < a.len() && i < b.len()
        invariant
            i <= a.len(),
            i <= b.len(),
            forall|k: int| 0 <= k < i ==> a@[k] == b@[k],
            bytes_less(a@, b@) == bytes_less(a@.skip(i as int), b@.skip(i as int)),
            bytes_less(b@, a@) == bytes_less(b@.skip(i as int), a@.skip(i as int)),
        decreases a.len() - i,
    {
        let x: u8 = a[i];
        let y: u8 = b[i];
        proof {
            assert(a@.skip(i as int).drop_first() =~= a@.skip(i as int + 1));
            assert(b@.skip(i as int).drop_first() =~= b@.skip(i as int + 1));
            assert(a@.skip(i as int)[0] == x);
            assert(b@.skip(i as int)[0] == y);
        }
        if x < y {
            proof {
                lemma_bytes_less_asymmetric(a@, b@);
            }
            return Rank::Before;
        }
        if y < x {
            proof {
                lemma_bytes_less_asymmetric(b@, a@);
            }
            return Rank::After;
        }
        i = i + 1;
    }
    proof {
        lemma_bytes_less_irreflexive(a@);
        if bytes_less(a@, b@) {
            lemma_bytes_less_asymmetric(a@, b@);
        }
    }
    if i < b.len() {
        Rank::Before
    } else if i < a.len() {
        Rank::After
    } else {
        assert(a@ =~= b@);
        Rank::Same
    }
}

/// Two byte strings are never each before the other, and one that is before
/// another differs from it.
pub proof fn lemma_bytes_less_asymmetric(a: Seq<u8>, b: Seq<u8>)
    requires
        bytes_less(a, b),
    ensures
        !bytes_less(b, a),
        a != b,
{
    lemma_bytes_less_irreflexive(a);
    if bytes_less(b, a) {
        lemma_bytes_less_transitive(a, b, a);
    }
}

/// Compares two names in the order in which they are listed.
pub fn compare_names(a: &str, b: &str) -> (rank: Rank)
    ensures
        rank == Rank::Before <==> name_less(a@, b@),
        rank == Rank::Same <==> a@ == b@,
        rank == Rank::After <==> name_less(b@, a@),
{
    proof {
        if encode_utf8(a@) == encode_utf8(b@) {
            lemma_encoding_decides_name(a@, b@);
        }
    }
    compare_bytes(a.as_bytes(), b.as_bytes())
}

/// Whether two texts are the same.
pub fn same_text(a: &str, b: &str) -> (same: bool)
    ensures
        same == (a@ == b@),
{
    match compare_names(a, b) {
        Rank::Same => true,
        _ => false,
    }
}

} // verus!
