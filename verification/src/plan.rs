//! Chunk planner: single-shot or chunked transfer, and the part boundaries.

use vstd::prelude::*;

verus! {

/// Part size of an upload, and the largest file that is sent in one put: 10 MiB.
pub const BATCH_SIZE: u64 = 10485760;

/// Number of part uploads that may be in flight at once.
pub const MAX_WORKERS: usize = 10;

/// Number of parts of `part_size` bytes needed to hold `file_size` bytes:
/// the quotient rounded up.
pub open spec fn total_parts_of(file_size: int, part_size: int) -> int
    recommends
        part_size > 0,
        file_size >= 0,
{
    (file_size + part_size - 1) / part_size
}

/// Offset in the file of the first byte of part `part_number` (parts count from 1).
pub open spec fn part_offset_of(part_size: int, part_number: int) -> int {
    (part_number - 1) * part_size
}

/// Length of part `part_number`: `part_size` for every part but the last,
/// which takes what is left. Zero for a number that names no part.
pub open spec fn part_len_of(file_size: int, part_size: int, part_number: int) -> int {
    let total = total_parts_of(file_size, part_size);
    if part_number < 1 || part_number > total {
        0
    } else if part_number < total {
        part_size
    } else {
        file_size - (total - 1) * part_size
    }
}

/// How a file is transferred.
#[derive(Clone, Copy, Debug, PartialEq, Eq, Structural)]
pub enum PlanMode {
    /// One put of the whole file.
    Single,
    /// A multi-part session of `total_parts` parts.
    Chunked { total_parts: u64 },
}

/// The mode that `plan` chooses, over mathematical integers.
pub open spec fn plan_of(file_size: u64, part_size: u64) -> PlanMode {
    if file_size <= part_size {
        PlanMode::Single
    } else {
        PlanMode::Chunked { total_parts: total_parts_of(file_size as int, part_size as int) as u64 }
    }
}

/// The ceiling quotient is the floor quotient, plus one where a remainder is left;
/// it is never larger than the file size.
pub proof fn lemma_total_parts_split(file_size: int, part_size: int)
    requires
        part_size > 0,
        file_size >= 0,
    ensures
        total_parts_of(file_size, part_size) == file_size / part_size + (if file_size % part_size
            == 0 {
            0int
        } else {
            1int
        }),
        0 <= total_parts_of(file_size, part_size) <= file_size,
{
    let q = file_size / part_size;
    let r = file_size % part_size;
    assert(file_size == q * part_size + r && 0 <= r < part_size && q >= 0) by (nonlinear_arith)
        requires
            part_size > 0,
            file_size >= 0,
            q == file_size / part_size,
            r == file_size % part_size,
    ;
    if r == 0 {
        assert((q * part_size + part_size - 1) / part_size == q) by (nonlinear_arith)
            requires
                part_size > 0,
        ;
    } else {
        assert((q * part_size + r + part_size - 1) / part_size == q + 1) by (nonlinear_arith)
            requires
                part_size > 0,
                0 < r < part_size,
        ;
    }
    assert(q <= file_size && (r != 0 ==> q + 1 <= file_size)) by (nonlinear_arith)
        requires
            part_size > 0,
            file_size == q * part_size + r,
            0 <= r < part_size,
            q >= 0,
    ;
}

/// The part count is the least number of parts that hold the file: `n` parts
/// hold it, `n - 1` do not.
pub proof fn lemma_total_parts_is_ceiling(file_size: int, part_size: int)
    requires
        part_size > 0,
        file_size >= 0,
    ensures
        (total_parts_of(file_size, part_size) - 1) * part_size < file_size || file_size == 0,
        file_size <= total_parts_of(file_size, part_size) * part_size,
        file_size == 0 ==> total_parts_of(file_size, part_size) == 0,
        file_size > part_size ==> total_parts_of(file_size, part_size) >= 2,
{
    lemma_total_parts_split(file_size, part_size);
    let q = file_size / part_size;
    let r = file_size % part_size;
    let n = total_parts_of(file_size, part_size);
    assert(file_size == q * part_size + r && 0 <= r < part_size && q >= 0) by (nonlinear_arith)
        requires
            part_size > 0,
            file_size >= 0,
            q == file_size / part_size,
            r == file_size % part_size,
    ;
    assert((q + 1) * part_size == q * part_size + part_size && (q - 1) * part_size == q * part_size
        - part_size) by (nonlinear_arith);
    if file_size > part_size {
        assert(q >= 1 && (q == 1 ==> r > 0)) by (nonlinear_arith)
            requires
                file_size == q * part_size + r,
                0 <= r < part_size,
                file_size > part_size,
                q >= 0,
        ;
    }
    if file_size == 0 {
        assert(q == 0) by (nonlinear_arith)
            requires
                0 == q * part_size + r,
                0 <= r < part_size,
                q >= 0,
        ;
    }
}

/// Every part is full but the last, which holds between one byte and a full part.
pub proof fn lemma_part_len_bounds(file_size: int, part_size: int, part_number: int)
    requires
        part_size > 0,
        file_size >= 0,
        1 <= part_number <= total_parts_of(file_size, part_size),
    ensures
        1 <= part_len_of(file_size, part_size, part_number) <= part_size,
        part_number < total_parts_of(file_size, part_size) ==> part_len_of(
            file_size,
            part_size,
            part_number,
        ) == part_size,
        part_offset_of(part_size, part_number) + part_len_of(file_size, part_size, part_number)
            <= file_size,
        part_number == total_parts_of(file_size, part_size) ==> part_offset_of(
            part_size,
            part_number,
        ) + part_len_of(file_size, part_size, part_number) == file_size,
{
    lemma_total_parts_is_ceiling(file_size, part_size);
    let n = total_parts_of(file_size, part_size);
    assert(n * part_size == (n - 1) * part_size + part_size) by (nonlinear_arith);
    if part_number < n {
        assert((part_number - 1) * part_size + part_size <= (n - 1) * part_size)
            by (nonlinear_arith)
            requires
                part_number < n,
                part_size > 0,
        ;
    }
}

/// Decides the transfer mode of a file of `file_size` bytes for parts of
/// `part_size` bytes: one put where the file fits in a part, else a
/// multi-part session of as many parts as hold the file.
pub fn plan(file_size: u64, part_size: u64) -> (mode: PlanMode)
    requires
        part_size > 0,
    ensures
        mode == plan_of(file_size, part_size),
        mode == PlanMode::Single <==> file_size <= part_size,
        file_size > part_size ==> mode == (PlanMode::Chunked {
            total_parts: total_parts_of(file_size as int, part_size as int) as u64,
        }),
{
    if file_size <= part_size {
        PlanMode::Single
    } else {
        PlanMode::Chunked { total_parts: total_parts(file_size, part_size) }
    }
}

/// The number of parts that hold a file of `file_size` bytes.
pub fn total_parts(file_size: u64, part_size: u64) -> (n: u64)
    requires
        part_size > 0,
    ensures
        n == total_parts_of(file_size as int, part_size as int),
{
    let whole: u64 = file_size / part_size;
    let rest: u64 = file_size % part_size;
    proof {
        lemma_total_parts_split(file_size as int, part_size as int);
    }
    if rest == 0 {
        whole
    } else {
        whole + 1
    }
}

/// The length of part `part_number`, zero where the file has no such part.
pub fn part_len(file_size: u64, part_size: u64, part_number: u64) -> (len: u64)
    requires
        part_size > 0,
    ensures
        len == part_len_of(file_size as int, part_size as int, part_number as int),
{
    let total: u64 = total_parts(file_size, part_size);
    if part_number < 1 || part_number > total {
        0
    } else if part_number < total {
        part_size
    } else {
        proof {
            lemma_part_len_bounds(file_size as int, part_size as int, part_number as int);
            lemma_total_parts_is_ceiling(file_size as int, part_size as int);
            assert((total - 1) * part_size <= file_size) by (nonlinear_arith)
                requires
                    (total - 1) * part_size < file_size || file_size == 0,
                    file_size == 0 ==> total == 0,
                    total >= 1,
            ;
        }
        let whole: u64 = file_size / part_size;
        let rest: u64 = file_size % part_size;
        proof {
            lemma_total_parts_split(file_size as int, part_size as int);
            assert(file_size == whole * part_size + rest) by (nonlinear_arith)
                requires
                    part_size > 0,
                    whole == file_size / part_size,
                    rest == file_size % part_size,
            ;
            assert((whole + 1 - 1) * part_size == whole * part_size) by (nonlinear_arith);
            assert((whole - 1) * part_size == whole * part_size - part_size) by (nonlinear_arith);
        }
        if rest == 0 {
            part_size
        } else {
            rest
        }
    }
}

/// The offset in the file at which part `part_number` starts.
pub fn part_offset(file_size: u64, part_size: u64, part_number: u64) -> (offset: u64)
    requires
        part_size > 0,
        1 <= part_number <= total_parts_of(file_size as int, part_size as int),
    ensures
        offset == part_offset_of(part_size as int, part_number as int),
        offset + part_len_of(file_size as int, part_size as int, part_number as int) <= file_size,
{
    proof {
        lemma_part_len_bounds(file_size as int, part_size as int, part_number as int);
    }
    (part_number - 1) * part_size
}

} // verus!
