//! Author-id bookkeeping for one document: every declared id is recorded,
//! duplicates are rejected, and a node without a declared id gets a generated
//! one that collides with no id in the set.

use vstd::prelude::*;
use vstd::seq_lib::*;
use vstd::set_lib::*;

verus! {

/// Relies on `rand::random`: a value drawn from the process's thread-local
/// generator.  Nothing is promised of which value comes back.
#[verifier::external_body]
fn random_u32() -> u32 {
    rand::random::<u32>()
}

/// Whether the vector holds the value.
pub fn contains_u32(v: &Vec<u32>, x: u32) -> (r: bool)
    ensures
        r == v@.contains(x),
{
    let n = v.len();
    let mut i: usize = 0;
    while i < n
        invariant
            n == v@.len(),
            i <= n,
            forall|j: int| 0 <= j < i as int ==> v@[j] != x,
        decreases n - i,
    {
        if v[i] == x {
            return true;
        }
        i = i + 1;
    }
    false
}

/// A sequence of length `n` cannot hold every integer of `0 ..= n`: some
/// value in that range is missing.
pub proof fn lemma_small_int_missing(s: Seq<int>)
    ensures
        exists|c: int| 0 <= c <= s.len() && !s.contains(c),
{
    let n = s.len() as int;
    if forall|c: int| 0 <= c <= s.len() ==> s.contains(c) {
        let range = set_int_range(0, n + 1);
        assert(range.subset_of(s.to_set()));
        lemma_int_range(0, n + 1);
        lemma_len_subset(range, s.to_set());
        s.lemma_cardinality_of_set();
        assert(false);
    }
}

/// A sequence of length `n` cannot hold every value of `0 ..= n`: some value
/// in that range is missing.
proof fn lemma_some_small_value_missing(s: Seq<u32>)
    requires
        s.len() < u32::MAX as nat,
    ensures
        exists|c: u32| c <= s.len() && !s.contains(c),
{
    let ints = s.map_values(|v: u32| v as int);
    lemma_small_int_missing(ints);
    let c = choose|c: int| 0 <= c <= ints.len() && !ints.contains(c);
    assert(!s.contains(c as u32)) by {
        if s.contains(c as u32) {
            let w = choose|w: int| 0 <= w < s.len() && s[w] == c as u32;
            assert(ints[w] == c);
            assert(ints.contains(c));
        }
    }
    assert(c as u32 <= s.len() && !s.contains(c as u32));
}

/// A sequence of length `n` cannot hold every value of `0 ..= n`: some value
/// in that range is missing.
proof fn lemma_some_small_u128_missing(s: Seq<u128>)
    requires
        s.len() < u128::MAX as nat,
    ensures
        exists|c: u128| c <= s.len() && !s.contains(c),
{
    let ints = s.map_values(|v: u128| v as int);
    lemma_small_int_missing(ints);
    let c = choose|c: int| 0 <= c <= ints.len() && !ints.contains(c);
    assert(!s.contains(c as u128)) by {
        if s.contains(c as u128) {
            let w = choose|w: int| 0 <= w < s.len() && s[w] == c as u128;
            assert(ints[w] == c);
            assert(ints.contains(c));
        }
    }
    assert(c as u128 <= s.len() && !s.contains(c as u128));
}

/// Whether the vector holds the value.
pub fn contains_u128(v: &Vec<u128>, x: u128) -> (r: bool)
    ensures
        r == v@.contains(x),
{
    let n = v.len();
    let mut i: usize = 0;
    while i < n
        invariant
            n == v@.len(),
            i <= n,
            forall|j: int| 0 <= j < i as int ==> v@[j] != x,
        decreases n - i,
    {
        if v[i] == x {
            return true;
        }
        i = i + 1;
    }
    false
}

/// A 128-bit value composed of four independent draws.
fn random_u128() -> u128 {
    let a = random_u32() as u128;
    let b = random_u32() as u128;
    let c = random_u32() as u128;
    let d = random_u32() as u128;
    (a << 96) | (b << 64) | (c << 32) | d
}

/// Picks a 128-bit identifier that collides with nothing in the vector: a
/// random draw when it is free, else the smallest free value.
pub fn fresh_u128(used: &Vec<u128>) -> (r: u128)
    ensures
        !used@.contains(r),
{
    let candidate = random_u128();
    if !contains_u128(used, candidate) {
        return candidate;
    }
    let n = used.len();
    let mut c: u128 = 0;
    while c <= n as u128
        invariant
            used@.len() == n,
            n < u128::MAX,
            c <= n as u128 + 1,
            forall|j: u128| j < c ==> used@.contains(j),
        decreases n as int + 1 - c as int,
    {
        if !contains_u128(used, c) {
            return c;
        }
        proof {
            assert forall|j: u128| j < c + 1 implies used@.contains(j) by {
                if j < c {
                } else {
                    assert(j == c);
                }
            }
        }
        c = c + 1;
    }
    proof {
        lemma_some_small_u128_missing(used@);
        let w = choose|w: u128| w <= used@.len() && !used@.contains(w);
        assert(w < c);
        assert(false);
    }
    0
}

/// Finds the smallest value not held by the vector.
fn first_missing(used: &Vec<u32>) -> (r: u32)
    requires
        used@.len() < u32::MAX,
    ensures
        !used@.contains(r),
{
    let n = used.len();
    let mut c: usize = 0;
    while c <= n
        invariant
            used@.len() == n < u32::MAX,
            c <= n + 1,
            forall|j: u32| j < c as int ==> used@.contains(j),
        decreases n + 1 - c,
    {
        if !contains_u32(used, c as u32) {
            return c as u32;
        }
        proof {
            assert forall|j: u32| j < c as int + 1 implies used@.contains(j) by {
                if j < c as int {
                } else {
                    assert(j == c as u32);
                }
            }
        }
        c = c + 1;
    }
    proof {
        lemma_some_small_value_missing(used@);
        let w = choose|w: u32| w <= used@.len() && !used@.contains(w);
        assert(w < c as int);
        assert(false);
    }
    0
}

/// The set of author ids seen in one document: declared ids are recorded and
/// checked for conflicts, and generated ids are guaranteed fresh.
#[derive(Debug, Clone, PartialEq)]
pub struct IdValidation {
    collection: Vec<u32>,
}

impl View for IdValidation {
    type V = Seq<u32>;

    closed spec fn view(&self) -> Seq<u32> {
        self.collection@
    }
}

impl IdValidation {
    /// No id seen yet.
    pub fn empty() -> (r: IdValidation)
        ensures
            r@ == Seq::<u32>::empty(),
    {
        let r = IdValidation { collection: Vec::new() };
        proof {
            assert(r@ =~= Seq::<u32>::empty());
        }
        r
    }

    /// Records an id.  Returns whether it was new; a second occurrence of the
    /// same id is a conflict and leaves the set unchanged.
    pub fn validate(&mut self, id: u32) -> (r: bool)
        ensures
            r == !old(self)@.contains(id),
            r ==> final(self)@ == old(self)@.push(id),
            !r ==> final(self)@ == old(self)@,
    {
        if contains_u32(&self.collection, id) {
            false
        } else {
            self.collection.push(id);
            true
        }
    }

    /// Generates an id that collides with no id in the set, records it, and
    /// hands it back.  A random id is tried first; if it is taken, the
    /// smallest free id is used instead.
    pub fn generate_unique(&mut self) -> (r: u32)
        requires
            old(self)@.len() < u32::MAX,
        ensures
            !old(self)@.contains(r),
            final(self)@ == old(self)@.push(r),
    {
        let candidate = random_u32();
        let id = if !contains_u32(&self.collection, candidate) {
            candidate
        } else {
            first_missing(&self.collection)
        };
        self.collection.push(id);
        id
    }
}

} // verus!
