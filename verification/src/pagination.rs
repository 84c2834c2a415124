//! Pagination arithmetic shared by every backend: which slice of an ordered
//! identifier listing a page holds, and how many pages a record count fills.

use vstd::prelude::*;

use crate::Error;

verus! {

/// The number of pages that `n` records fill at `per_page` records a page:
/// `n / per_page`, rounded up.
pub open spec fn total_pages(n: nat, per_page: nat) -> nat
    recommends
        per_page >= 1,
{
    ((n + per_page - 1) / per_page as int) as nat
}

/// The slice of `ids` that page `page` (1-indexed) holds at `per_page`
/// entries a page: entries `(page - 1) * per_page` up to `page * per_page`,
/// both clipped to the length.
pub open spec fn page_slice<A>(ids: Seq<A>, page: nat, per_page: nat) -> Seq<A>
    recommends
        page >= 1,
{
    let lo = if (page - 1) * per_page > ids.len() {
        ids.len() as int
    } else {
        (page - 1) * per_page
    };
    let hi = if lo + per_page > ids.len() {
        ids.len() as int
    } else {
        lo + per_page
    };
    ids.subrange(lo, hi)
}

/// The page count a backend reports for `n` records at `per_page` a page:
/// `total_pages(n, per_page)`, with a page size of zero rejected as
/// `InvalidPageSize`.
pub fn page_count(n: usize, per_page: usize) -> (r: Result<usize, Error>)
    ensures
        per_page == 0 <==> r matches Err(Error::InvalidPageSize),
        per_page >= 1 ==> (r matches Ok(t) && t == total_pages(n as nat, per_page as nat)),
{
    if per_page == 0 {
        return Err(Error::InvalidPageSize);
    }
    if n == 0 {
        proof {
            assert((n + per_page - 1) as int / per_page as int == 0) by (nonlinear_arith)
                requires
                    per_page >= 1,
                    n == 0,
            ;
        }
        Ok(0)
    } else {
        let q = (n - 1) / per_page;
        proof {
            assert(q <= n - 1 && q + 1 == (n + per_page - 1) as int / per_page as int)
                by (nonlinear_arith)
                requires
                    per_page >= 1,
                    n >= 1,
                    q == (n - 1) as int / per_page as int,
            ;
        }
        Ok(1 + q)
    }
}

/// The half-open index range that 1-indexed page `page` covers in a listing
/// of `n` records — what a durable backend turns into an offset and a limit:
/// for any listing of length `n`, the entries at these indexes are exactly
/// `page_slice` of it.
pub fn page_bounds(n: usize, page: usize, per_page: usize) -> (r: (usize, usize))
    requires
        page >= 1,
        per_page >= 1,
    ensures
        r.0 <= r.1 <= n,
        forall|ids: Seq<Seq<char>>|
            ids.len() == n ==> #[trigger] page_slice(ids, page as nat, per_page as nat)
                == ids.subrange(r.0 as int, r.1 as int),
{
    let start: usize = match (page - 1).checked_mul(per_page) {
        Some(s) => if s > n {
            n
        } else {
            s
        },
        None => n,
    };
    let end: usize = if n - start < per_page {
        n
    } else {
        start + per_page
    };
    (start, end)
}

/// Page-count law: `total_pages` is the least page count that covers `n`
/// entries — its pages hold all of them, and one page fewer leaves some out.
pub proof fn lemma_total_pages_ceil(n: nat, per_page: nat)
    requires
        per_page >= 1,
    ensures
        total_pages(n, per_page) * per_page >= n,
        n > 0 ==> (total_pages(n, per_page) - 1) * per_page < n,
        n == 0 ==> total_pages(n, per_page) == 0,
{
    let t = total_pages(n, per_page) as int;
    let k = per_page as int;
    assert(t * k >= n && (n > 0 ==> (t - 1) * k < n) && (n == 0 ==> t == 0)) by (nonlinear_arith)
        requires
            k >= 1,
            n >= 0,
            t == (n + k - 1) / k,
    ;
}

/// Page-range law: pages up to the total page count are the occupied ones —
/// each holds at least one entry — and every page past it is empty.
pub proof fn lemma_page_in_range<A>(ids: Seq<A>, page: nat, per_page: nat)
    requires
        per_page >= 1,
        page >= 1,
    ensures
        page <= total_pages(ids.len(), per_page) ==> page_slice(ids, page, per_page).len() > 0,
        page > total_pages(ids.len(), per_page) ==> page_slice(ids, page, per_page).len() == 0,
{
    let n = ids.len() as int;
    let k = per_page as int;
    let t = total_pages(ids.len(), per_page) as int;
    let p = page as int;
    if p <= t {
        assert((p - 1) * k < n) by (nonlinear_arith)
            requires
                k >= 1,
                1 <= p <= t,
                t == (n + k - 1) / k,
        ;
    } else {
        assert((p - 1) * k >= n) by (nonlinear_arith)
            requires
                k >= 1,
                p > t >= 0,
                n >= 0,
                t == (n + k - 1) / k,
        ;
    }
}

/// Partition law: every entry lands on exactly one page — entry `i` on page
/// `i / per_page + 1` at offset `i % per_page`, an occupied page — so the
/// pages together list the whole sequence, each entry exactly once.
pub proof fn lemma_pages_partition<A>(ids: Seq<A>, per_page: nat, i: int)
    requires
        per_page >= 1,
        0 <= i < ids.len(),
    ensures
        1 <= i / (per_page as int) + 1 <= total_pages(ids.len(), per_page),
        page_slice(ids, (i / (per_page as int) + 1) as nat, per_page)[i % (per_page as int)]
            == ids[i],
{
    let n = ids.len() as int;
    let k = per_page as int;
    let t = total_pages(ids.len(), per_page) as int;
    let q = i / k;
    let r = i % k;
    assert(q * k + r == i && 0 <= r < k && q >= 0 && q * k <= i && q + 1 <= t) by (nonlinear_arith)
        requires
            k >= 1,
            0 <= i < n,
            q == i / k,
            r == i % k,
            t == (n + k - 1) / k,
    ;
    let page = (q + 1) as nat;
    let lo = if (page - 1) * per_page > ids.len() {
        ids.len() as int
    } else {
        (page - 1) * per_page
    };
    assert(lo == q * k);
    assert(page_slice(ids, page, per_page)[r] == ids[q * k + r]);
}

} // verus!
