//! Workloads of the Nexus zkVM tests: vector allocation and a loop of
//! heptagonal-number arithmetic.
use vstd::prelude::*;

verus! {

pub const CAP_LIM: usize = 10000;

pub const TO_INSERT_ITEM: usize = 145;

/// `count` copies of the inserted item.
pub open spec fn items(count: nat) -> Seq<usize> {
    Seq::new(count, |i: int| TO_INSERT_ITEM)
}

/// An empty vector with room for `CAP_LIM` items.
pub fn alloc_vec() -> (r: Vec<usize>)
    ensures
        r@ == Seq::<usize>::empty(),
{
    Vec::with_capacity(CAP_LIM)
}

/// Appends `count` copies of the inserted item.
fn push_items(vecc: &mut Vec<usize>, count: usize)
    ensures
        final(vecc)@ == old(vecc)@ + items(count as nat),
{
    let ghost start = vecc@;
    let mut i: usize = 0;
    while i < count
        invariant
            0 <= i <= count,
            vecc@ == start + items(i as nat),
        decreases count - i,
    {
        vecc.push(TO_INSERT_ITEM);
        i += 1;
        assert(vecc@ =~= start + items(i as nat));
    }
}

/// Appends `CAP_LIM - 1` copies of the inserted item.
pub fn push_vec(vecc: &mut Vec<usize>)
    ensures
        final(vecc)@ == old(vecc)@ + items((CAP_LIM - 1) as nat),
{
    push_items(vecc, CAP_LIM - 1);
}

/// Appends `CAP_LIM + 1` copies of the inserted item, growing past the capacity.
pub fn dyn_alloc_vec(vecc: &mut Vec<usize>)
    ensures
        final(vecc)@ == old(vecc)@ + items((CAP_LIM + 1) as nat),
{
    push_items(vecc, CAP_LIM + 1);
}

/// Pops `CAP_LIM - 1` times; pops on an empty vector do nothing.
pub fn pop_vec(vecc: &mut Vec<usize>)
    ensures
        final(vecc)@ == old(vecc)@.take(
            if old(vecc)@.len() >= CAP_LIM - 1 {
                old(vecc)@.len() - (CAP_LIM - 1)
            } else {
                0
            },
        ),
{
    let ghost start = vecc@;
    let mut i: usize = 1;
    while i < CAP_LIM
        invariant
            1 <= i <= CAP_LIM,
            vecc@ == start.take(
                if start.len() >= i - 1 {
                    start.len() - (i - 1)
                } else {
                    0
                },
            ),
        decreases CAP_LIM - i,
    {
        let _ = vecc.pop();
        i += 1;
        assert(vecc@ =~= start.take(
            if start.len() >= i - 1 {
                start.len() - (i - 1)
            } else {
                0
            },
        ));
    }
}

/// Allocates a vector, fills it and empties it again; the answer is always 0.
pub fn vec_alloc(n: u32) -> (r: u32)
    ensures
        r == 0,
{
    let mut vvec = alloc_vec();
    push_vec(&mut vvec);
    pop_vec(&mut vvec);
    0
}

/// Computes the first hundred heptagonal numbers and discards them; the answer is always 0.
pub fn hept(n: u32) -> (r: u32)
    ensures
        r == 0,
{
    let mut i: i32 = 0;
    while i < 100
        invariant
            0 <= i <= 100,
        decreases 100 - i,
    {
        assert(0 <= 5 * i * i <= 50000) by (nonlinear_arith)
            requires
                0 <= i < 100,
        ;
        let _hept: i32 = (5 * i * i - 3 * i) / 2;
        i += 1;
    }
    0
}

} // verus!
