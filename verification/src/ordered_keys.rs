//! Facts about the ordered-set keys the library collects: plain and
//! `(spin, k)` indices obey the order laws the ordered collections need,
//! and the keys an ordered set hands out come in strictly increasing order.
use vstd::prelude::*;
use vstd::std_specs::cmp::OrdSpec;

verus! {

broadcast use vstd::std_specs::btree::group_btree_axioms;

/// `usize` keys follow the order laws the ordered collections rely on.
pub open spec fn usize_keys_ordered() -> bool {
    &&& vstd::laws_cmp::obeys_cmp::<usize>()
    &&& vstd::std_specs::btree::key_obeys_cmp_spec::<usize>()
}

/// `u32` keys follow the order laws the ordered collections rely on.
pub open spec fn u32_keys_ordered() -> bool {
    &&& vstd::laws_cmp::obeys_cmp::<u32>()
    &&& vstd::std_specs::btree::key_obeys_cmp_spec::<u32>()
}

pub proof fn lemma_u32_keys_ordered()
    ensures
        u32_keys_ordered(),
{
    broadcast use vstd::laws_cmp::group_laws_cmp;
}

/// `(u32, u32)` keys follow the order laws the ordered collections rely on.
pub open spec fn u32_pair_keys_ordered() -> bool {
    &&& vstd::laws_cmp::obeys_cmp::<(u32, u32)>()
    &&& vstd::std_specs::btree::key_obeys_cmp_spec::<(u32, u32)>()
}

pub proof fn lemma_u32_pair_keys_ordered()
    ensures
        u32_pair_keys_ordered(),
{
    broadcast use vstd::laws_cmp::group_laws_cmp;
    assert(vstd::laws_cmp::obeys_cmp::<u32>());
    assert(vstd::laws_cmp::obeys_cmp::<(u32, u32)>());
}

/// `(u8, usize)` keys follow the order laws the ordered collections rely on.
pub open spec fn pair_keys_ordered() -> bool {
    &&& vstd::laws_cmp::obeys_cmp::<(u8, usize)>()
    &&& vstd::std_specs::btree::key_obeys_cmp_spec::<(u8, usize)>()
}

pub proof fn lemma_usize_keys_ordered()
    ensures
        usize_keys_ordered(),
{
    broadcast use vstd::laws_cmp::group_laws_cmp;
}

pub proof fn lemma_pair_keys_ordered()
    ensures
        pair_keys_ordered(),
{
    broadcast use vstd::laws_cmp::group_laws_cmp;
    assert(vstd::laws_cmp::obeys_cmp::<u8>());
    assert(vstd::laws_cmp::obeys_cmp::<usize>());
    assert(vstd::laws_cmp::obeys_cmp::<(u8, usize)>());
}

/// The `usize` keys an ordered set hands out are strictly increasing.
pub proof fn lemma_increasing_usize(s: Seq<&usize>)
    requires
        vstd::std_specs::btree::increasing_seq(s),
    ensures
        forall|i: int, j: int| 0 <= i < j < s.len() ==> #[trigger] *s[i] < #[trigger] *s[j],
{
    broadcast use vstd::laws_cmp::group_laws_cmp;
    assert(vstd::laws_cmp::obeys_cmp::<usize>());
    assert(vstd::laws_cmp::obeys_cmp::<&usize>());
    vstd::std_specs::btree::axiom_increasing_seq_meaning::<&usize>(s);
    assert forall|i: int, j: int| 0 <= i < j < s.len() implies #[trigger] *s[i] < #[trigger] *s[j] by {
        assert(OrdSpec::cmp_spec(&s[i], &s[j]) is Less);
    }
}

/// The `(u8, usize)` keys an ordered set hands out increase by their first
/// entry, then their second.
pub proof fn lemma_increasing_pairs(s: Seq<&(u8, usize)>)
    requires
        vstd::std_specs::btree::increasing_seq(s),
    ensures
        forall|i: int, j: int| 0 <= i < j < s.len()
            ==> (#[trigger] s[i]).0 < (#[trigger] s[j]).0 || (s[i].0 == s[j].0 && s[i].1 < s[j].1),
{
    broadcast use vstd::laws_cmp::group_laws_cmp;
    assert(vstd::laws_cmp::obeys_cmp::<u8>());
    assert(vstd::laws_cmp::obeys_cmp::<usize>());
    assert(vstd::laws_cmp::obeys_cmp::<(u8, usize)>());
    assert(vstd::laws_cmp::obeys_cmp::<&(u8, usize)>());
    vstd::std_specs::btree::axiom_increasing_seq_meaning::<&(u8, usize)>(s);
    assert forall|i: int, j: int| 0 <= i < j < s.len()
        implies (#[trigger] s[i]).0 < (#[trigger] s[j]).0 || (s[i].0 == s[j].0 && s[i].1 < s[j].1) by {
        assert(OrdSpec::cmp_spec(&s[i], &s[j]) is Less);
    }
}

} // verus!
