use vstd::prelude::*;
use vstd::arithmetic::div_mod::{lemma_mod_add_multiples_vanish, lemma_small_mod};
use vstd::utf8::encode_utf8;

use crate::types::Pagination;

verus! {

/// Page size used when a reader asks for none.
pub const DEFAULT_PAGINATION_LIMIT: u64 = 5;

/// Largest page size handed out.
pub const MAX_PAGINATION_LIMIT: u64 = 5;

/// The storage key spelled by `prefix`: its UTF-8 bytes.
pub fn to_storage_key(prefix: &str) -> (r: Vec<u8>)
    ensures
        r@ == encode_utf8(prefix@),
{
    vstd::slice::slice_to_vec(prefix.as_bytes())
}

/// The page size after clamping to the maximum.
pub open spec fn clamped_limit(limit: u64) -> u64 {
    if limit > MAX_PAGINATION_LIMIT {
        MAX_PAGINATION_LIMIT
    } else {
        limit
    }
}

/// How many items a page skips, `(page - 1) * limit`, held at `usize::MAX`
/// where it exceeds it: a skip that large passes every set.
pub open spec fn skip_of(page: u64, limit: u64) -> usize {
    let s = (page - 1) * clamped_limit(limit);
    if s > usize::MAX {
        usize::MAX
    } else {
        s as usize
    }
}

/// The page a reader asked for, or the first page of the default size.
pub open spec fn requested(pagination: Option<Pagination>) -> Pagination {
    match pagination {
        Some(p) => p,
        None => Pagination { page: 1, limit: DEFAULT_PAGINATION_LIMIT },
    }
}

/// Pages count from 1.
pub open spec fn valid_pagination(pagination: Option<Pagination>) -> bool {
    requested(pagination).page >= 1
}

/// Turns a page request into how many items to skip and how many to take.
pub fn unwrap_pagination(pagination: Option<Pagination>) -> (r: (usize, usize))
    requires
        valid_pagination(pagination),
    ensures
        r.0 == skip_of(requested(pagination).page, requested(pagination).limit),
        r.1 == clamped_limit(requested(pagination).limit) as usize,
{
    let actual = match pagination {
        Some(p) => p,
        None => Pagination { page: 1, limit: DEFAULT_PAGINATION_LIMIT },
    };
    let limit: u64 = if actual.limit > MAX_PAGINATION_LIMIT {
        MAX_PAGINATION_LIMIT
    } else {
        actual.limit
    };
    let page: u64 = actual.page - 1;
    let skip: usize = if limit == 0 {
        0
    } else if page > (usize::MAX as u64) / limit {
        usize::MAX
    } else {
        proof {
            assert(page * limit <= usize::MAX) by (nonlinear_arith)
                requires
                    page <= usize::MAX as u64 / limit,
                    limit > 0,
            ;
        }
        (page * limit) as usize
    };
    proof {
        if limit > 0 && page > (usize::MAX as u64) / limit {
            assert(page * limit > usize::MAX) by (nonlinear_arith)
                requires
                    page > usize::MAX as u64 / limit,
                    limit > 0,
            ;
        }
    }
    (skip, limit as usize)
}

/// The byte at position `j` of `seed` turned left by `shift` places.
pub open spec fn rotated_byte(seed: Seq<u8>, shift: u32, j: int) -> u8 {
    seed[((shift as int) % (seed.len() as int) + j) % (seed.len() as int)]
}

/// The number read little-endian from the first four bytes of `seed` turned
/// left by `shift` places.
pub open spec fn random_number_of(seed: Seq<u8>, shift: u32) -> u32 {
    (rotated_byte(seed, shift, 0) as int + 256 * rotated_byte(seed, shift, 1) as int + 65536
        * rotated_byte(seed, shift, 2) as int + 16777216 * rotated_byte(seed, shift, 3) as int) as u32
}

/// `(start + j) % len` for a `start` below `len`.
fn wrapped(start: usize, j: usize, len: usize) -> (r: usize)
    requires
        start < len,
        j < len,
    ensures
        r == (start + j) % (len as int),
{
    if start < len - j {
        proof {
            lemma_small_mod((start + j) as nat, len as nat);
        }
        start + j
    } else {
        proof {
            let b = start + j - len;
            lemma_small_mod(b as nat, len as nat);
            lemma_mod_add_multiples_vanish(b, len as int);
        }
        start - (len - j)
    }
}

/// Draws a number from a random seed: the seed is turned left by `shift_amount`
/// places, and its first four bytes are read little-endian. Different shifts
/// give different draws from one seed.
pub fn get_random_number(seed: &Vec<u8>, shift_amount: u32) -> (r: u32)
    requires
        seed@.len() >= 4,
    ensures
        r == random_number_of(seed@, shift_amount),
{
    let len = seed.len();
    let rot: usize = (shift_amount as usize) % len;
    let b0 = seed[wrapped(rot, 0, len)] as u32;
    let b1 = seed[wrapped(rot, 1, len)] as u32;
    let b2 = seed[wrapped(rot, 2, len)] as u32;
    let b3 = seed[wrapped(rot, 3, len)] as u32;
    b0 + 256 * b1 + 65536 * b2 + 16777216 * b3
}

} // verus!
