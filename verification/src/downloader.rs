//! Downloads: when to try again, what counts as complete, and who does what.
use vstd::prelude::*;

use crate::config::Config;
use crate::error;
use crate::error::LkpmError;
use crate::repo;
use crate::text;

verus! {

// ---------------------------------------------------------------------------
// Attempts

/// How often a download is tried.
pub const MAX_ATTEMPTS: u32 = 3;

/// What follows an attempt.
#[derive(PartialEq, Eq, Structural, Clone, Copy, Debug)]
pub enum AttemptStep {
    /// The file is there.
    Done,
    /// What there is of the file is removed; after a pause it is tried again.
    Retry,
    /// What there is of the file is removed, and that is it.
    GiveUp,
}

/// What follows the `attempt`th attempt; the first one is number one.
pub fn download_to(attempt: u32, succeeded: bool) -> (r: AttemptStep)
    ensures
        r == (if succeeded {
            AttemptStep::Done
        } else if attempt < MAX_ATTEMPTS {
            AttemptStep::Retry
        } else {
            AttemptStep::GiveUp
        }),
{
    if succeeded {
        AttemptStep::Done
    } else if attempt < MAX_ATTEMPTS {
        AttemptStep::Retry
    } else {
        AttemptStep::GiveUp
    }
}

/// What is said of a download that was given up.
pub fn download_failure(url: &str) -> (r: LkpmError)
    ensures
        r@ == error::ErrorView::Other("Failed to download from "@ + url@ + "!"@),
{
    error::other(&text::join3("Failed to download from ", url, "!"))
}

/// The length that a server announces; zero if it announces none.
pub fn announced_length(header: &Option<String>) -> (r: u64)
    ensures
        r == (match *header {
            Some(h) => match text::number_of(h@) {
                Some(n) => n,
                None => 0,
            },
            None => 0,
        }),
{
    match header {
        Some(h) => match text::parse_number(h) {
            Some(n) => n,
            None => 0,
        },
        None => 0,
    }
}

/// Whether a server gives the file, by the status of its answer.
pub open spec fn is_success(status: u16) -> bool {
    200 <= status && status < 300
}

/// An answer is read only if its status says that it is the file. The error
/// gives the status as it is shown.
pub fn accept_status(status: u16, shown: &str) -> (r: Result<(), LkpmError>)
    ensures
        match r {
            Ok(_) => is_success(status),
            Err(e) => !is_success(status) && e@ == error::ErrorView::Other(
                "HTTP error status: "@ + shown@,
            ),
        },
{
    if 200 <= status && status < 300 {
        Ok(())
    } else {
        Err(error::other(&text::join2("HTTP error status: ", shown)))
    }
}

/// A download is complete if the connection lasted and the file is as long as
/// was announced, or nothing was announced.
pub fn download_once(announced: u64, received: u64, lost: bool) -> (r: Result<(), LkpmError>)
    ensures
        match r {
            Ok(_) => !lost && (announced == 0 || received == announced),
            Err(e) => if lost {
                e@ == error::ErrorView::Other(
                    "Connection disconnected when trying to download the data!"@,
                )
            } else {
                announced > 0 && received != announced && e@ == error::ErrorView::Other(
                    "Downloaded file size not matched with the actual file size! ("@
                        + text::decimal_of(received as nat) + "/"@ + text::decimal_of(
                        announced as nat,
                    ) + " bytes)"@,
                )
            },
        },
{
    if lost {
        return Err(error::other("Connection disconnected when trying to download the data!"));
    }
    if announced > 0 && received != announced {
        Err(
            error::other(
                &text::join5(
                    "Downloaded file size not matched with the actual file size! (",
                    &text::decimal(received),
                    "/",
                    &text::decimal(announced),
                    " bytes)",
                ),
            ),
        )
    } else {
        Ok(())
    }
}

/// How far the count over all downloads moves back once an answer has been
/// read: by all that was received, unless the download is complete.
pub fn taken_back(received: u64, outcome: &Result<(), LkpmError>) -> (r: u64)
    ensures
        r == (if *outcome is Ok {
            0
        } else {
            received
        }),
{
    match outcome {
        Ok(_) => 0,
        Err(_) => received,
    }
}

// ---------------------------------------------------------------------------
// Many downloads

/// How many downloads run at once: as many as are configured, but at least
/// one, and no more than there is to download.
pub fn worker_count(cfg: &Config, total: usize) -> (r: usize)
    ensures
        r <= total,
        total > 0 ==> r > 0,
        r == (if total < 1 || (total <= cfg.parallel_operation) {
            total
        } else if cfg.parallel_operation < 1 {
            1
        } else {
            cfg.parallel_operation
        }),
{
    let limit: usize = if cfg.parallel_operation < 1 {
        1
    } else {
        cfg.parallel_operation
    };
    if limit < total {
        limit
    } else {
        total
    }
}

/// What a download is called while it runs.
pub fn download_label(url: &str) -> (r: String)
    ensures
        r@ == (match repo::file_fields(repo::url_file(url@)) {
            Some(f) => f.0,
            None => repo::url_file(url@),
        }),
{
    repo::package_name_from_file_name(&repo::package_file_name_from_url(url))
}

/// What has arrived: which download it was, and the file if it succeeded.
pub open spec fn arrival_views(v: Seq<(usize, Option<String>)>) -> Seq<(int, Option<Seq<char>>)> {
    v.map_values(|a: (usize, Option<String>)| (a.0 as int, crate::cli::opt_text(a.1)))
}

/// The file of the `i`th download, if it arrived.
pub open spec fn arrived(arrivals: Seq<(int, Option<Seq<char>>)>, i: int) -> Option<Seq<char>>
    decreases arrivals.len(),
{
    if arrivals.len() == 0 {
        None
    } else if arrivals.last().0 == i && arrivals.last().1 is Some {
        arrivals.last().1
    } else {
        arrived(arrivals.drop_last(), i)
    }
}

/// The files of a list.
pub open spec fn files_of(v: Seq<Option<String>>) -> Seq<Option<Seq<char>>> {
    v.map_values(|f: Option<String>| crate::cli::opt_text(f))
}

/// Puts the files that have arrived, in whatever order, in the order of the
/// downloads. A download that failed has no file.
pub fn download_packages_concurrently(total: usize, arrivals: &Vec<(usize, Option<String>)>) -> (r: Vec<
    Option<String>,
>)
    ensures
        files_of(r@) == Seq::new(total as nat, |i: int| arrived(arrival_views(arrivals@), i)),
{
    let ghost all = arrival_views(arrivals@);
    let mut out: Vec<Option<String>> = Vec::new();
    let mut n: usize = 0;
    while n < total
        invariant
            n <= total,
            out@.len() == n,
            forall|i: int| 0 <= i < n ==> #[trigger] out@[i] is None,
        decreases total - n,
    {
        out.push(None);
        n = n + 1;
    }
    let mut k: usize = 0;
    assert(all.take(0) =~= seq![]);
    while k < arrivals.len()
        invariant
            k <= arrivals@.len(),
            all == arrival_views(arrivals@),
            out@.len() == total,
            forall|i: int|
                0 <= i < total ==> crate::cli::opt_text(#[trigger] out@[i]) == arrived(
                    all.take(k as int),
                    i,
                ),
        decreases arrivals@.len() - k,
    {
        let ghost before = out@;
        let ghost now = all.take(k + 1);
        assert(now.drop_last() =~= all.take(k as int));
        assert(now.last() == (arrivals@[k as int].0 as int, crate::cli::opt_text(arrivals@[k as int].1)));
        let index: usize = arrivals[k].0;
        if index < total {
            if let Some(file) = &arrivals[k].1 {
                out.set(index, Some(text::copy(file)));
            }
        }
        assert forall|i: int| 0 <= i < total implies crate::cli::opt_text(#[trigger] out@[i])
            == arrived(now, i) by {
            if i != index {
                assert(out@[i] == before[i]);
            }
        }
        k = k + 1;
    }
    assert(all.take(all.len() as int) =~= all);
    assert(files_of(out@) =~= Seq::new(total as nat, |i: int| arrived(all, i)));
    out
}

/// Where every download arrives once, the order of arrival does not matter:
/// each file goes to its own download.
pub proof fn arrival_order_does_not_matter(arrivals: Seq<(int, Option<Seq<char>>)>, k: int)
    requires
        0 <= k < arrivals.len(),
        forall|a: int, b: int|
            0 <= a < b < arrivals.len() ==> (#[trigger] arrivals[a]).0 != (#[trigger] arrivals[b]).0,
    ensures
        arrived(arrivals, arrivals[k].0) == arrivals[k].1,
    decreases arrivals.len(),
{
    let n = arrivals.len() - 1;
    let init = arrivals.drop_last();
    if k < n {
        assert(arrivals[k].0 != arrivals[n].0);
        assert(init[k] == arrivals[k]);
        assert forall|a: int, b: int| 0 <= a < b < init.len() implies (#[trigger] init[a]).0 != (
        #[trigger] init[b]).0 by {
            assert(init[a] == arrivals[a] && init[b] == arrivals[b]);
        }
        arrival_order_does_not_matter(init, k);
    } else if arrivals[n].1 is None {
        never_arrived(init, arrivals[n].0, arrivals);
    }
}

proof fn never_arrived(
    init: Seq<(int, Option<Seq<char>>)>,
    i: int,
    all: Seq<(int, Option<Seq<char>>)>,
)
    requires
        init.len() < all.len(),
        forall|a: int| 0 <= a < init.len() ==> #[trigger] init[a] == all[a],
        all[all.len() - 1].0 == i,
        forall|a: int, b: int|
            0 <= a < b < all.len() ==> (#[trigger] all[a]).0 != (#[trigger] all[b]).0,
    ensures
        arrived(init, i) is None,
    decreases init.len(),
{
    if init.len() > 0 {
        let last = init.len() - 1;
        assert(init[last] == all[last]);
        assert(all[last].0 != all[all.len() - 1].0);
        assert forall|a: int| 0 <= a < init.drop_last().len() implies #[trigger] init.drop_last()[a]
            == all[a] by {
            assert(init[a] == all[a]);
        }
        never_arrived(init.drop_last(), i, all);
    }
}

/// A file that is there arrived under its own number, and one that arrived is
/// there, whatever failed beside it.
pub proof fn only_what_arrived_is_there(arrivals: Seq<(int, Option<Seq<char>>)>, i: int)
    ensures
        arrived(arrivals, i) matches Some(file) ==> arrivals.contains((i, Some(file))),
        arrived(arrivals, i) is None <==> forall|k: int|
            0 <= k < arrivals.len() && (#[trigger] arrivals[k]).0 == i ==> arrivals[k].1 is None,
    decreases arrivals.len(),
{
    if arrivals.len() > 0 {
        let init = arrivals.drop_last();
        let n = arrivals.len() - 1;
        only_what_arrived_is_there(init, i);
        assert(arrivals[n] == arrivals.last());
        assert(forall|k: int| 0 <= k < n ==> #[trigger] init[k] == arrivals[k]);
        if arrived(init, i) is Some {
            let k = choose|k: int|
                0 <= k < init.len() && init[k] == (i, Some(arrived(init, i)->0));
            assert(arrivals[k] == init[k]);
        } else {
            assert forall|k: int|
                0 <= k < n && (#[trigger] arrivals[k]).0 == i implies arrivals[k].1 is None by {
                assert(init[k] == arrivals[k]);
            }
        }
    }
}

} // verus!
