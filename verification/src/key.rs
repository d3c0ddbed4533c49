use vstd::laws_cmp::obeys_cmp;
use vstd::prelude::*;
use vstd::std_specs::cmp::OrdSpec;

verus! {

/// A key type whose `Ord` obeys the laws of a total order, so that the ordered
/// maps that hold deltas behave as maps.
pub trait OrdKey: Ord + Copy {
    /// The type's `Ord` implementation is a lawful total order.
    proof fn lemma_ord_laws()
        ensures
            obeys_cmp::<Self>(),
    ;
}

impl OrdKey for u8 {
    proof fn lemma_ord_laws() {
        broadcast use vstd::laws_cmp::group_laws_cmp;

    }
}

impl OrdKey for u16 {
    proof fn lemma_ord_laws() {
        broadcast use vstd::laws_cmp::group_laws_cmp;

    }
}

impl OrdKey for u32 {
    proof fn lemma_ord_laws() {
        broadcast use vstd::laws_cmp::group_laws_cmp;

    }
}

impl OrdKey for u64 {
    proof fn lemma_ord_laws() {
        broadcast use vstd::laws_cmp::group_laws_cmp;

    }
}

impl OrdKey for u128 {
    proof fn lemma_ord_laws() {
        broadcast use vstd::laws_cmp::group_laws_cmp;

    }
}

impl OrdKey for usize {
    proof fn lemma_ord_laws() {
        broadcast use vstd::laws_cmp::group_laws_cmp;

    }
}

impl OrdKey for i8 {
    proof fn lemma_ord_laws() {
        broadcast use vstd::laws_cmp::group_laws_cmp;

    }
}

impl OrdKey for i16 {
    proof fn lemma_ord_laws() {
        broadcast use vstd::laws_cmp::group_laws_cmp;

    }
}

impl OrdKey for i32 {
    proof fn lemma_ord_laws() {
        broadcast use vstd::laws_cmp::group_laws_cmp;

    }
}

impl OrdKey for i64 {
    proof fn lemma_ord_laws() {
        broadcast use vstd::laws_cmp::group_laws_cmp;

    }
}

impl OrdKey for i128 {
    proof fn lemma_ord_laws() {
        broadcast use vstd::laws_cmp::group_laws_cmp;

    }
}

impl OrdKey for isize {
    proof fn lemma_ord_laws() {
        broadcast use vstd::laws_cmp::group_laws_cmp;

    }
}

/// Indices that a `BTreeMap` walk hands out in increasing order increase.
pub proof fn lemma_increasing_indices(ks: Seq<usize>)
    requires
        vstd::std_specs::btree::increasing_seq(ks),
    ensures
        forall|i: int, j: int| 0 <= i < j < ks.len() ==> ks[i] < ks[j],
{
    usize::lemma_ord_laws();
    assert forall|i: int, j: int| 0 <= i < j < ks.len() implies ks[i] < ks[j] by {
        assert(ks[i].cmp_spec(&ks[j]) is Less);
    }
}

/// A key type that hashes and compares as the hash maps that hold deltas
/// expect, so that they behave as maps.
pub trait HashKey: Eq + std::hash::Hash + Copy {
    /// The type obeys the key model of hash maps.
    proof fn lemma_key_model()
        ensures
            vstd::std_specs::hash::obeys_key_model::<Self>(),
    ;
}

impl HashKey for u8 {
    proof fn lemma_key_model() {
        broadcast use vstd::std_specs::hash::axiom_u8_obeys_hash_table_key_model;

    }
}

impl HashKey for u16 {
    proof fn lemma_key_model() {
        broadcast use vstd::std_specs::hash::axiom_u16_obeys_hash_table_key_model;

    }
}

impl HashKey for u32 {
    proof fn lemma_key_model() {
        broadcast use vstd::std_specs::hash::axiom_u32_obeys_hash_table_key_model;

    }
}

impl HashKey for u64 {
    proof fn lemma_key_model() {
        broadcast use vstd::std_specs::hash::axiom_u64_obeys_hash_table_key_model;

    }
}

impl HashKey for u128 {
    proof fn lemma_key_model() {
        broadcast use vstd::std_specs::hash::axiom_u128_obeys_hash_table_key_model;

    }
}

impl HashKey for usize {
    proof fn lemma_key_model() {
        broadcast use vstd::std_specs::hash::axiom_usize_obeys_hash_table_key_model;

    }
}

impl HashKey for i8 {
    proof fn lemma_key_model() {
        broadcast use vstd::std_specs::hash::axiom_i8_obeys_hash_table_key_model;

    }
}

impl HashKey for i16 {
    proof fn lemma_key_model() {
        broadcast use vstd::std_specs::hash::axiom_i16_obeys_hash_table_key_model;

    }
}

impl HashKey for i32 {
    proof fn lemma_key_model() {
        broadcast use vstd::std_specs::hash::axiom_i32_obeys_hash_table_key_model;

    }
}

impl HashKey for i64 {
    proof fn lemma_key_model() {
        broadcast use vstd::std_specs::hash::axiom_i64_obeys_hash_table_key_model;

    }
}

impl HashKey for i128 {
    proof fn lemma_key_model() {
        broadcast use vstd::std_specs::hash::axiom_i128_obeys_hash_table_key_model;

    }
}

impl HashKey for isize {
    proof fn lemma_key_model() {
        broadcast use vstd::std_specs::hash::axiom_isize_obeys_hash_table_key_model;

    }
}

impl HashKey for bool {
    proof fn lemma_key_model() {
        broadcast use vstd::std_specs::hash::axiom_bool_obeys_hash_table_key_model;

    }
}

} // verus!
