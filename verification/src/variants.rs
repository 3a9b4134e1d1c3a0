//! Which variant sizes a photo is rendered at: every candidate size that
//! does not exceed the photo's larger dimension. The rendering itself
//! (resizing and encoding) is an external collaborator; this is only the
//! decision of which sizes to produce.

use vstd::prelude::*;

verus! {

/// The candidate variant sizes, largest first.
pub open spec fn candidate_sizes() -> Seq<u32> {
    seq![
        1800u32, 1700u32, 1600u32, 1500u32, 1400u32, 1300u32, 1200u32, 1100u32, 1000u32,
        900u32, 800u32, 700u32, 600u32, 500u32, 400u32, 300u32,
    ]
}

/// The subsequence of sizes no larger than the bound, order kept.
pub open spec fn sizes_at_most(s: Seq<u32>, bound: u32) -> Seq<u32>
    decreases s.len(),
{
    if s.len() == 0 {
        Seq::empty()
    } else {
        let rest = sizes_at_most(s.drop_last(), bound);
        if s.last() <= bound {
            rest.push(s.last())
        } else {
            rest
        }
    }
}

proof fn lemma_sizes_at_most_take_step(s: Seq<u32>, bound: u32, i: int)
    requires
        0 <= i < s.len(),
    ensures
        sizes_at_most(s.take(i + 1), bound) == (if s[i] <= bound {
            sizes_at_most(s.take(i), bound).push(s[i])
        } else {
            sizes_at_most(s.take(i), bound)
        }),
{
    assert(s.take(i + 1).drop_last() =~= s.take(i));
    assert(s.take(i + 1).last() == s[i]);
}

/// The sizes to render a photo of the given dimensions at: the candidate
/// sizes no larger than the larger dimension, kept in their
/// largest-first order.
pub fn variant_sizes(width: u32, height: u32) -> (r: Vec<u32>)
    ensures
        r@ == sizes_at_most(
            candidate_sizes(),
            if width >= height {
                width
            } else {
                height
            },
        ),
{
    let longest = if width >= height {
        width
    } else {
        height
    };
    let candidates: Vec<u32> = vec![
        1800, 1700, 1600, 1500, 1400, 1300, 1200, 1100, 1000, 900, 800, 700, 600, 500, 400,
        300,
    ];
    proof {
        assert(candidates@ =~= candidate_sizes());
    }
    let mut r: Vec<u32> = Vec::new();
    let mut i: usize = 0;
    while i < candidates.len()
        invariant
            i <= candidates.len(),
            candidates@ == candidate_sizes(),
            longest == (if width >= height {
                width
            } else {
                height
            }),
            r@ == sizes_at_most(candidates@.take(i as int), longest),
        decreases candidates.len() - i,
    {
        proof {
            lemma_sizes_at_most_take_step(candidates@, longest, i as int);
        }
        if candidates[i] <= longest {
            r.push(candidates[i]);
        }
        i += 1;
    }
    proof {
        assert(candidates@.take(candidates@.len() as int) =~= candidates@);
    }
    r
}

} // verus!
