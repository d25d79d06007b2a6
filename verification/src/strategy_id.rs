//! Names of strategies, and their order.

use vstd::prelude::*;
use vstd::utf8::encode_utf8;

verus! {

/// The name of a strategy.
#[derive(Debug, PartialEq, Eq)]
pub struct StrategyId {
    /// The text of the name.
    pub name: String,
}

impl View for StrategyId {
    type V = Seq<char>;

    open spec fn view(&self) -> Seq<char> {
        self.name@
    }
}

impl Clone for StrategyId {
    fn clone(&self) -> (id: StrategyId)
        ensures
            id@ == self@,
    {
        StrategyId { name: self.name.clone() }
    }
}

/// The names of strategies.
pub open spec fn names(ids: Seq<StrategyId>) -> Seq<Seq<char>> {
    ids.map_values(|id: StrategyId| id@)
}

/// The lexicographic order of bytes.
pub open spec fn bytes_precede(a: Seq<u8>, b: Seq<u8>) -> bool
    decreases a.len(),
{
    if b.len() == 0 {
        false
    } else if a.len() == 0 {
        true
    } else if a[0] == b[0] {
        bytes_precede(a.drop_first(), b.drop_first())
    } else {
        a[0] < b[0]
    }
}

/// The order of names: that of their UTF-8 bytes.
pub open spec fn precedes(a: Seq<char>, b: Seq<char>) -> bool {
    bytes_precede(encode_utf8(a), encode_utf8(b))
}

/// Whether names stand in order and none occurs twice.
pub open spec fn in_order(ids: Seq<Seq<char>>) -> bool {
    forall|i: int, j: int| 0 <= i < j < ids.len() ==> precedes(#[trigger] ids[i], #[trigger] ids[j])
}

/// No bytes precede themselves.
proof fn lemma_bytes_irreflexive(a: Seq<u8>)
    ensures
        !bytes_precede(a, a),
    decreases a.len(),
{
    if a.len() > 0 {
        lemma_bytes_irreflexive(a.drop_first());
    }
}

/// The order of bytes is transitive.
proof fn lemma_bytes_transitive(a: Seq<u8>, b: Seq<u8>, c: Seq<u8>)
    requires
        bytes_precede(a, b),
        bytes_precede(b, c),
    ensures
        bytes_precede(a, c),
    decreases a.len(),
{
    if a.len() > 0 && a[0] == b[0] && b[0] == c[0] {
        lemma_bytes_transitive(a.drop_first(), b.drop_first(), c.drop_first());
    }
}

/// Of two different byte strings one precedes the other.
proof fn lemma_bytes_total(a: Seq<u8>, b: Seq<u8>)
    requires
        a != b,
    ensures
        bytes_precede(a, b) || bytes_precede(b, a),
    decreases a.len(),
{
    if a.len() > 0 && b.len() > 0 && a[0] == b[0] {
        if a.drop_first() == b.drop_first() {
            assert(a =~= seq![a[0]] + a.drop_first());
            assert(b =~= seq![b[0]] + b.drop_first());
        }
        lemma_bytes_total(a.drop_first(), b.drop_first());
    } else if a.len() == 0 && b.len() == 0 {
        assert(a =~= b);
    }
}

/// The order of names is a strict total order.
pub proof fn lemma_order_of_names(a: Seq<char>, b: Seq<char>, c: Seq<char>)
    ensures
        !precedes(a, a),
        precedes(a, b) && precedes(b, c) ==> precedes(a, c),
        a != b ==> precedes(a, b) || precedes(b, a),
        precedes(a, b) ==> !precedes(b, a),
{
    lemma_bytes_irreflexive(encode_utf8(a));
    if precedes(a, b) && precedes(b, c) {
        lemma_bytes_transitive(encode_utf8(a), encode_utf8(b), encode_utf8(c));
    }
    if precedes(a, b) && precedes(b, a) {
        lemma_bytes_transitive(encode_utf8(a), encode_utf8(b), encode_utf8(a));
    }
    if a != b {
        if encode_utf8(a) == encode_utf8(b) {
            vstd::utf8::encode_utf8_decode_utf8(a);
            vstd::utf8::encode_utf8_decode_utf8(b);
        }
        lemma_bytes_total(encode_utf8(a), encode_utf8(b));
    }
}

/// Names in order that hold the same names are equal.
pub proof fn lemma_order_is_unique(first: Seq<Seq<char>>, second: Seq<Seq<char>>)
    requires
        in_order(first),
        in_order(second),
        forall|id: Seq<char>| #[trigger] first.contains(id) <==> second.contains(id),
    ensures
        first == second,
{
    assert forall|k: int| 0 <= k < first.len() implies k < second.len() && first[k] == second[k] by {
        lemma_same_place(first, second, k);
    }
    if first.len() > 0 {
        lemma_same_place(first, second, first.len() - 1);
    }
    if second.len() > 0 {
        lemma_same_place(second, first, second.len() - 1);
    }
    assert(first =~= second);
}

/// Names in order that hold the same names hold them at the same places.
proof fn lemma_same_place(first: Seq<Seq<char>>, second: Seq<Seq<char>>, k: int)
    requires
        in_order(first),
        in_order(second),
        forall|id: Seq<char>| #[trigger] first.contains(id) <==> second.contains(id),
        0 <= k < first.len(),
    ensures
        k < second.len(),
        first[k] == second[k],
    decreases k,
{
    assert forall|i: int| 0 <= i < k implies i < second.len() && first[i] == second[i] by {
        lemma_same_place(first, second, i);
    }
    assert(first.contains(first[k]));
    let m = choose|m: int| 0 <= m < second.len() && second[m] == first[k];
    if m < k {
        assert(first[m] == second[m]);
        lemma_order_of_names(first[m], first[k], first[m]);
    }
    assert(m >= k);
    assert(second.contains(second[k]));
    assert(first.contains(second[k]));
    let n = choose|n: int| 0 <= n < first.len() && first[n] == second[k];
    if n < k {
        assert(first[n] == second[n]);
        lemma_order_of_names(second[n], second[k], second[n]);
    }
    if m > k {
        lemma_order_of_names(second[k], second[m], second[k]);
        if n > k {
            lemma_order_of_names(first[k], first[n], first[k]);
        }
    }
}

impl StrategyId {
    /// The strategy of that name.
    pub fn new(name: &str) -> (id: StrategyId)
        ensures
            id@ == name@,
    {
        StrategyId { name: name.to_owned() }
    }

    /// Whether two names are the same.
    pub fn same(&self, other: &StrategyId) -> (b: bool)
        ensures
            b == (self@ == other@),
    {
        self.name == other.name
    }

    /// Whether the name comes before another one.
    pub fn comes_before(&self, other: &StrategyId) -> (b: bool)
        ensures
            b == precedes(self@, other@),
    {
        let a = self.name.as_str().as_bytes();
        let b = other.name.as_str().as_bytes();
        let mut i: usize = 0;
        assert(a@.skip(0) =~= a@);
        assert(b@.skip(0) =~= b@);
        while i < a.len() && i < b.len()
            invariant
                i <= a@.len(),
                i <= b@.len(),
                a@ == encode_utf8(self@),
                b@ == encode_utf8(other@),
                precedes(self@, other@) == bytes_precede(a@.skip(i as int), b@.skip(i as int)),
            decreases a.len() - i,
        {
            if a[i] != b[i] {
                return a[i] < b[i];
            }
            assert(a@.skip(i as int).drop_first() =~= a@.skip(i + 1));
            assert(b@.skip(i as int).drop_first() =~= b@.skip(i + 1));
            i += 1;
        }
        i < b.len()
    }
}

/// Copies names.
pub fn copy_ids(ids: &Vec<StrategyId>) -> (copy: Vec<StrategyId>)
    ensures
        names(copy@) == names(ids@),
{
    let mut copy: Vec<StrategyId> = Vec::new();
    let mut i: usize = 0;
    while i < ids.len()
        invariant
            i <= ids@.len(),
            copy@.len() == i,
            forall|k: int| 0 <= k < i ==> (#[trigger] copy@[k])@ == ids@[k]@,
        decreases ids.len() - i,
    {
        copy.push(ids[i].clone());
        i += 1;
    }
    assert(names(copy@) =~= names(ids@));
    copy
}

/// Of two names whose bytes agree up to some place, the one with the smaller byte there comes first.
/// One that ends there comes before one that goes on.
pub proof fn law_first_difference_orders(a: Seq<char>, b: Seq<char>, k: int)
    requires
        0 <= k <= encode_utf8(a).len(),
        k < encode_utf8(b).len(),
        forall|i: int| 0 <= i < k ==> #[trigger] encode_utf8(a)[i] == encode_utf8(b)[i],
        k == encode_utf8(a).len() || encode_utf8(a)[k] != encode_utf8(b)[k],
    ensures
        precedes(a, b) <==> k == encode_utf8(a).len() || encode_utf8(a)[k] < encode_utf8(b)[k],
{
    lemma_first_difference(encode_utf8(a), encode_utf8(b), k);
}

/// Bytes are ordered by the first place at which they differ.
proof fn lemma_first_difference(a: Seq<u8>, b: Seq<u8>, k: int)
    requires
        0 <= k <= a.len(),
        k < b.len(),
        forall|i: int| 0 <= i < k ==> #[trigger] a[i] == b[i],
        k == a.len() || a[k] != b[k],
    ensures
        bytes_precede(a, b) <==> k == a.len() || a[k] < b[k],
    decreases k,
{
    if k > 0 {
        let rest1 = a.drop_first();
        let rest2 = b.drop_first();
        assert(a[0] == b[0]);
        assert forall|i: int| 0 <= i < k - 1 implies #[trigger] rest1[i] == rest2[i] by {
            assert(a[i + 1] == b[i + 1]);
        }
        lemma_first_difference(rest1, rest2, k - 1);
    }
}

} // verus!
