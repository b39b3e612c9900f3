//! Runs of variable-length records.
//!
//! Several components are a count followed by records whose length depends
//! on a field of the record itself (a camera's marker count, a device's
//! sample count). Where record `j` starts is then a fold over the records
//! before it, and the payload is well formed when every record fits.

use vstd::prelude::*;

verus! {

/// Where record `j` starts, given where the first starts and where the record
/// after one starting at `o` starts.
pub open spec fn record_offset(first: int, next: spec_fn(int) -> int, j: nat) -> int
    decreases j,
{
    if j == 0 {
        first
    } else {
        next(record_offset(first, next, (j - 1) as nat))
    }
}

/// True when each of the first `n` records fits, by `fits` applied to where
/// it starts.
pub open spec fn records_fit(
    first: int,
    next: spec_fn(int) -> int,
    fits: spec_fn(int) -> bool,
    n: nat,
) -> bool
    decreases n,
{
    if n == 0 {
        true
    } else {
        records_fit(first, next, fits, (n - 1) as nat) && fits(
            record_offset(first, next, (n - 1) as nat),
        )
    }
}

/// If the first `n` records fit, so do the first `j + 1` for every `j < n`.
pub proof fn lemma_records_fit_prefix(
    first: int,
    next: spec_fn(int) -> int,
    fits: spec_fn(int) -> bool,
    n: nat,
    j: nat,
)
    requires
        records_fit(first, next, fits, n),
        j < n,
    ensures
        records_fit(first, next, fits, j + 1),
        fits(record_offset(first, next, j)),
    decreases n,
{
    if j + 1 < n {
        lemma_records_fit_prefix(first, next, fits, (n - 1) as nat, j);
    }
}

/// A record that does not fit makes every longer run fail to fit.
pub proof fn lemma_records_unfit(
    first: int,
    next: spec_fn(int) -> int,
    fits: spec_fn(int) -> bool,
    n: nat,
    j: nat,
)
    requires
        j < n,
        !fits(record_offset(first, next, j)),
    ensures
        !records_fit(first, next, fits, n),
{
    if records_fit(first, next, fits, n) {
        lemma_records_fit_prefix(first, next, fits, n, j);
    }
}

/// The index of the first of the first `n` records that does not fit, when
/// one does not.
pub open spec fn first_unfit(
    first: int,
    next: spec_fn(int) -> int,
    fits: spec_fn(int) -> bool,
    n: nat,
) -> nat
    decreases n,
{
    if n == 0 {
        0
    } else if !records_fit(first, next, fits, (n - 1) as nat) {
        first_unfit(first, next, fits, (n - 1) as nat)
    } else {
        (n - 1) as nat
    }
}

/// A record that does not fit, after records that all do, is the first
/// that does not fit in any longer run.
pub proof fn lemma_first_unfit(
    first: int,
    next: spec_fn(int) -> int,
    fits: spec_fn(int) -> bool,
    n: nat,
    j: nat,
)
    requires
        j < n,
        records_fit(first, next, fits, j),
        !fits(record_offset(first, next, j)),
    ensures
        first_unfit(first, next, fits, n) == j,
    decreases n,
{
    if j + 1 < n {
        lemma_records_unfit(first, next, fits, (n - 1) as nat, j);
        lemma_first_unfit(first, next, fits, (n - 1) as nat, j);
    }
}

/// Where the first of the first `n` records that does not fit starts.
pub open spec fn first_bad_offset(
    first: int,
    next: spec_fn(int) -> int,
    fits: spec_fn(int) -> bool,
    n: nat,
) -> int {
    record_offset(first, next, first_unfit(first, next, fits, n))
}

/// A record that does not fit, after records that all do, starts where the
/// first that does not fit starts.
pub proof fn lemma_first_bad_offset(
    first: int,
    next: spec_fn(int) -> int,
    fits: spec_fn(int) -> bool,
    n: nat,
    j: nat,
)
    requires
        j < n,
        records_fit(first, next, fits, j),
        !fits(record_offset(first, next, j)),
    ensures
        first_bad_offset(first, next, fits, n) == record_offset(first, next, j),
{
    lemma_first_unfit(first, next, fits, n, j);
}

} // verus!
