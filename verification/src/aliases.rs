//! Names for the half-delta and delta types of the supported containers.

use std::collections::{BTreeMap, HashMap};

use vstd::prelude::*;

use crate::delta::Delta;

verus! {

/// Half-delta for `Vec<V>`.
pub type VecHalfDelta<V> = BTreeMap<usize, V>;

/// Delta for `Vec<V>`.
pub type VecDelta<V> = Delta<VecHalfDelta<V>>;

/// Half-delta for `VecDeque<V>`.
pub type VecDequeHalfDelta<V> = BTreeMap<usize, V>;

/// Delta for `VecDeque<V>`.
pub type VecDequeDelta<V> = Delta<VecDequeHalfDelta<V>>;

/// Half-delta for `TinyVec8`.
pub type TinyVecHalfDelta<V> = BTreeMap<usize, V>;

/// Delta for `TinyVec8`.
pub type TinyVecDelta<V> = Delta<TinyVecHalfDelta<V>>;

/// Half-delta for `BTreeMap<K, V>`.
pub type BTreeMapHalfDelta<K, V> = BTreeMap<K, V>;

/// Delta for `BTreeMap<K, V>`.
pub type BTreeMapDelta<K, V> = Delta<BTreeMapHalfDelta<K, V>>;

/// Half-delta for `BTreeSet<K>`.
pub type BTreeSetHalfDelta<K> = BTreeMap<K, ()>;

/// Delta for `BTreeSet<K>`.
pub type BTreeSetDelta<K> = Delta<BTreeSetHalfDelta<K>>;

/// Half-delta for `i8`.
pub type I8HalfDelta = BTreeMap<usize, i8>;

/// Delta for `i8`.
pub type I8Delta = Delta<I8HalfDelta>;

/// Half-delta for `i16`.
pub type I16HalfDelta = BTreeMap<usize, i16>;

/// Delta for `i16`.
pub type I16Delta = Delta<I16HalfDelta>;

/// Half-delta for `i32`.
pub type I32HalfDelta = BTreeMap<usize, i32>;

/// Delta for `i32`.
pub type I32Delta = Delta<I32HalfDelta>;

/// Half-delta for `i64`.
pub type I64HalfDelta = BTreeMap<usize, i64>;

/// Delta for `i64`.
pub type I64Delta = Delta<I64HalfDelta>;

/// Half-delta for `i128`.
pub type I128HalfDelta = BTreeMap<usize, i128>;

/// Delta for `i128`.
pub type I128Delta = Delta<I128HalfDelta>;

/// Half-delta for `isize`.
pub type IsizeHalfDelta = BTreeMap<usize, isize>;

/// Delta for `isize`.
pub type IsizeDelta = Delta<IsizeHalfDelta>;

/// Half-delta for `u8`.
pub type U8HalfDelta = BTreeMap<usize, u8>;

/// Delta for `u8`.
pub type U8Delta = Delta<U8HalfDelta>;

/// Half-delta for `u16`.
pub type U16HalfDelta = BTreeMap<usize, u16>;

/// Delta for `u16`.
pub type U16Delta = Delta<U16HalfDelta>;

/// Half-delta for `u32`.
pub type U32HalfDelta = BTreeMap<usize, u32>;

/// Delta for `u32`.
pub type U32Delta = Delta<U32HalfDelta>;

/// Half-delta for `u64`.
pub type U64HalfDelta = BTreeMap<usize, u64>;

/// Delta for `u64`.
pub type U64Delta = Delta<U64HalfDelta>;

/// Half-delta for `u128`.
pub type U128HalfDelta = BTreeMap<usize, u128>;

/// Delta for `u128`.
pub type U128Delta = Delta<U128HalfDelta>;

/// Half-delta for `usize`.
pub type UsizeHalfDelta = BTreeMap<usize, usize>;

/// Delta for `usize`.
pub type UsizeDelta = Delta<UsizeHalfDelta>;

/// Half-delta for `char`.
pub type CharHalfDelta = BTreeMap<usize, char>;

/// Delta for `char`.
pub type CharDelta = Delta<CharHalfDelta>;

/// Half-delta for `bool`.
pub type BoolHalfDelta = BTreeMap<usize, bool>;

/// Delta for `bool`.
pub type BoolDelta = Delta<BoolHalfDelta>;

/// Half-delta for `()`.
pub type UnitHalfDelta = BTreeMap<usize, ()>;

/// Delta for `()`.
pub type UnitDelta = Delta<UnitHalfDelta>;

/// Half-delta for `(T0,)`.
pub type Tuple1HalfDelta<T0> = BTreeMap<usize, (T0,)>;

/// Delta for `(T0,)`.
pub type Tuple1Delta<T0> = Delta<Tuple1HalfDelta<T0>>;

/// Half-delta for `(T0, T1)`.
pub type Tuple2HalfDelta<T0, T1> = BTreeMap<usize, (T0, T1)>;

/// Delta for `(T0, T1)`.
pub type Tuple2Delta<T0, T1> = Delta<Tuple2HalfDelta<T0, T1>>;

/// Half-delta for `(T0, T1, T2)`.
pub type Tuple3HalfDelta<T0, T1, T2> = BTreeMap<usize, (T0, T1, T2)>;

/// Delta for `(T0, T1, T2)`.
pub type Tuple3Delta<T0, T1, T2> = Delta<Tuple3HalfDelta<T0, T1, T2>>;

/// Half-delta for `(T0, T1, T2, T3)`.
pub type Tuple4HalfDelta<T0, T1, T2, T3> = BTreeMap<usize, (T0, T1, T2, T3)>;

/// Delta for `(T0, T1, T2, T3)`.
pub type Tuple4Delta<T0, T1, T2, T3> = Delta<Tuple4HalfDelta<T0, T1, T2, T3>>;

/// Half-delta for `(T0, T1, T2, T3, T4)`.
pub type Tuple5HalfDelta<T0, T1, T2, T3, T4> = BTreeMap<usize, (T0, T1, T2, T3, T4)>;

/// Delta for `(T0, T1, T2, T3, T4)`.
pub type Tuple5Delta<T0, T1, T2, T3, T4> = Delta<Tuple5HalfDelta<T0, T1, T2, T3, T4>>;

/// Half-delta for `(T0, T1, T2, T3, T4, T5)`.
pub type Tuple6HalfDelta<T0, T1, T2, T3, T4, T5> = BTreeMap<usize, (T0, T1, T2, T3, T4, T5)>;

/// Delta for `(T0, T1, T2, T3, T4, T5)`.
pub type Tuple6Delta<T0, T1, T2, T3, T4, T5> = Delta<Tuple6HalfDelta<T0, T1, T2, T3, T4, T5>>;

/// Half-delta for `(T0, T1, T2, T3, T4, T5, T6)`.
pub type Tuple7HalfDelta<T0, T1, T2, T3, T4, T5, T6> = BTreeMap<usize, (T0, T1, T2, T3, T4, T5, T6)>;

/// Delta for `(T0, T1, T2, T3, T4, T5, T6)`.
pub type Tuple7Delta<T0, T1, T2, T3, T4, T5, T6> = Delta<Tuple7HalfDelta<T0, T1, T2, T3, T4, T5, T6>>;

/// Half-delta for `(T0, T1, T2, T3, T4, T5, T6, T7)`.
pub type Tuple8HalfDelta<T0, T1, T2, T3, T4, T5, T6, T7> = BTreeMap<usize, (T0, T1, T2, T3, T4, T5, T6, T7)>;

/// Delta for `(T0, T1, T2, T3, T4, T5, T6, T7)`.
pub type Tuple8Delta<T0, T1, T2, T3, T4, T5, T6, T7> = Delta<Tuple8HalfDelta<T0, T1, T2, T3, T4, T5, T6, T7>>;

/// Half-delta for `(T0, T1, T2, T3, T4, T5, T6, T7, T8)`.
pub type Tuple9HalfDelta<T0, T1, T2, T3, T4, T5, T6, T7, T8> = BTreeMap<usize, (T0, T1, T2, T3, T4, T5, T6, T7, T8)>;

/// Delta for `(T0, T1, T2, T3, T4, T5, T6, T7, T8)`.
pub type Tuple9Delta<T0, T1, T2, T3, T4, T5, T6, T7, T8> = Delta<Tuple9HalfDelta<T0, T1, T2, T3, T4, T5, T6, T7, T8>>;

/// Half-delta for `(T0, T1, T2, T3, T4, T5, T6, T7, T8, T9)`.
pub type Tuple10HalfDelta<T0, T1, T2, T3, T4, T5, T6, T7, T8, T9> = BTreeMap<usize, (T0, T1, T2, T3, T4, T5, T6, T7, T8, T9)>;

/// Delta for `(T0, T1, T2, T3, T4, T5, T6, T7, T8, T9)`.
pub type Tuple10Delta<T0, T1, T2, T3, T4, T5, T6, T7, T8, T9> = Delta<Tuple10HalfDelta<T0, T1, T2, T3, T4, T5, T6, T7, T8, T9>>;

/// Half-delta for `(T0, T1, T2, T3, T4, T5, T6, T7, T8, T9, T10)`.
pub type Tuple11HalfDelta<T0, T1, T2, T3, T4, T5, T6, T7, T8, T9, T10> = BTreeMap<usize, (T0, T1, T2, T3, T4, T5, T6, T7, T8, T9, T10)>;

/// Delta for `(T0, T1, T2, T3, T4, T5, T6, T7, T8, T9, T10)`.
pub type Tuple11Delta<T0, T1, T2, T3, T4, T5, T6, T7, T8, T9, T10> = Delta<Tuple11HalfDelta<T0, T1, T2, T3, T4, T5, T6, T7, T8, T9, T10>>;

/// Half-delta for `(T0, T1, T2, T3, T4, T5, T6, T7, T8, T9, T10, T11)`.
pub type Tuple12HalfDelta<T0, T1, T2, T3, T4, T5, T6, T7, T8, T9, T10, T11> = BTreeMap<usize, (T0, T1, T2, T3, T4, T5, T6, T7, T8, T9, T10, T11)>;

/// Delta for `(T0, T1, T2, T3, T4, T5, T6, T7, T8, T9, T10, T11)`.
pub type Tuple12Delta<T0, T1, T2, T3, T4, T5, T6, T7, T8, T9, T10, T11> = Delta<Tuple12HalfDelta<T0, T1, T2, T3, T4, T5, T6, T7, T8, T9, T10, T11>>;

/// Half-delta for `Option<V>`.
pub type OptionHalfDelta<V> = BTreeMap<usize, V>;

/// Delta for `Option<V>`.
pub type OptionDelta<V> = Delta<OptionHalfDelta<V>>;

/// Half-delta for `Box<V>`.
pub type BoxHalfDelta<V> = BTreeMap<usize, V>;

/// Delta for `Box<V>`.
pub type BoxDelta<V> = Delta<BoxHalfDelta<V>>;

/// Half-delta for `Rc<V>`.
pub type RcHalfDelta<V> = BTreeMap<usize, V>;

/// Delta for `Rc<V>`.
pub type RcDelta<V> = Delta<RcHalfDelta<V>>;

/// Half-delta for `Arc<V>`.
pub type ArcHalfDelta<V> = BTreeMap<usize, V>;

/// Delta for `Arc<V>`.
pub type ArcDelta<V> = Delta<ArcHalfDelta<V>>;

/// Half-delta for `PhantomData<T>`.
pub type PhantomDataHalfDelta = BTreeMap<usize, ()>;

/// Delta for `PhantomData<T>`.
pub type PhantomDataDelta = Delta<PhantomDataHalfDelta>;

/// Half-delta for `HashMap<K, V>` kept in a hash map.
pub type HashMapHalfDelta<K, V> = HashMap<K, V>;

/// Delta for `HashMap<K, V>` kept in hash maps.
pub type HashMapDelta<K, V> = Delta<HashMapHalfDelta<K, V>>;

/// Half-delta for `HashSet<K>` kept in a hash map.
pub type HashSetHalfDelta<K> = HashMap<K, ()>;

/// Delta for `HashSet<K>` kept in hash maps.
pub type HashSetDelta<K> = Delta<HashSetHalfDelta<K>>;

/// Half-delta for `BiBTreeMap<L, R>`.
pub type BiBTreeMapHalfDelta<L, R> = BTreeMap<L, R>;

/// Delta for `BiBTreeMap<L, R>`.
pub type BiBTreeMapDelta<L, R> = Delta<BiBTreeMapHalfDelta<L, R>>;

/// Half-delta for `BiHashMap<L, R>` kept in a hash map.
pub type BiHashMapHalfDelta<L, R> = HashMap<L, R>;

/// Delta for `BiHashMap<L, R>` kept in hash maps.
pub type BiHashMapDelta<L, R> = Delta<BiHashMapHalfDelta<L, R>>;

} // verus!
