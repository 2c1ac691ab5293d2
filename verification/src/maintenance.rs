//! Keeping the database small: when cold samples are thinned and when the file is shrunk.

use vstd::prelude::*;

verus! {

/// What is done about the size of the file.
#[derive(Clone, Copy, Debug, PartialEq, Eq, Structural)]
pub enum VacuumChoice {
    /// Nothing, by request.
    SkippedByRequest,
    /// Nothing, as less than a twentieth of the pages are free.
    NothingToReclaim,
    /// The file is rewritten.
    Run,
}

/// How many pages a share is taken of: at least one.
pub open spec fn pages_counted(page_count: i64) -> int {
    if page_count < 1 {
        1
    } else {
        page_count as int
    }
}

/// What is done about the size of the file with so many free pages.
pub open spec fn vacuum_choice(skip: bool, freelist_pages: i64, page_count: i64) -> VacuumChoice {
    if skip {
        VacuumChoice::SkippedByRequest
    } else if freelist_pages == 0 || freelist_pages * 20 < pages_counted(page_count) {
        VacuumChoice::NothingToReclaim
    } else {
        VacuumChoice::Run
    }
}

/// What is done about the size of the file.
pub fn choose_vacuum(skip: bool, freelist_pages: i64, page_count: i64) -> (r: VacuumChoice)
    ensures
        r == vacuum_choice(skip, freelist_pages, page_count),
{
    if skip {
        return VacuumChoice::SkippedByRequest;
    }
    let pages: i128 = if page_count < 1 {
        1
    } else {
        page_count as i128
    };
    if freelist_pages == 0 || freelist_pages as i128 * 20 < pages {
        VacuumChoice::NothingToReclaim
    } else {
        VacuumChoice::Run
    }
}

/// Whether cold samples are thinned: only where they have a number of days.
pub fn thins_cold_samples(hot_retention_days: u32) -> (r: bool)
    ensures
        r == (hot_retention_days > 0),
{
    hot_retention_days > 0
}

/// The bytes of free pages that could be given back.
pub fn reclaimable_bytes(pages: i64, page_size: u32) -> (b: u128)
    ensures
        b == (if pages < 0 {
            0
        } else {
            pages * page_size
        }),
{
    if pages < 0 {
        0
    } else {
        proof {
            assert(pages * page_size <= 0x7fff_ffff_ffff_ffff * 0xffff_ffff) by (nonlinear_arith)
                requires
                    0 <= pages <= 0x7fff_ffff_ffff_ffff,
                    0 <= page_size <= 0xffff_ffff,
            ;
        }
        pages as u128 * page_size as u128
    }
}

/// The advice that comes with a running service, which keeps the file from being rewritten.
pub fn maintenance_hint(service_running: bool) -> (s: &'static str)
    ensures
        s@ == if service_running {
            "服务运行中：降采样可与写库并发；VACUUM 需独占，失败请以管理员执行 find-stutter-service stop 后重跑"@
        } else {
            ""@
        },
{
    if service_running {
        "服务运行中：降采样可与写库并发；VACUUM 需独占，失败请以管理员执行 find-stutter-service stop 后重跑"
    } else {
        ""
    }
}

} // verus!
