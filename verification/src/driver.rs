//! The date-range driver: which day to handle next, whether its archive must
//! be fetched or can be skipped, and how a failure ends the run.
//!
//! The driver holds no connection and touches no disk. The caller asks it for
//! the current task, performs the request and the write, and reports back:
//! `advance` after a skip or a successful fetch, `fail` after a fatal error.
//! Days are handled strictly one at a time, in calendar order.

use vstd::prelude::*;
use crate::date::{Date, spec_date_le, spec_date_lt, spec_next_day, day_number,
    lemma_order_matches_day_number};
use crate::names::{spec_full_log_name, full_log_filename};
use crate::urls::{spec_full_log_url, build_log_url};

verus! {

/// One day's work: the archive's remote URL and its local file name.
pub struct DayTask {
    pub date: Date,
    pub filename: String,
    pub url: String,
}

/// A directory listing holds a name with the characters `s`.
pub open spec fn names_contain(names: Seq<String>, s: Seq<char>) -> bool {
    exists|i: int| 0 <= i < names.len() && names[i]@ == s
}

pub struct Driver {
    /// The day whose archive is handled next.
    pub cur: Date,
    /// Last day of the range, inclusive.
    pub to: Date,
    /// Account name in URLs and file names.
    pub account: String,
    /// Cluster name in URLs and file names.
    pub cluster: String,
    /// The output directory's entries before the run started.
    pub existing: Vec<String>,
    /// The range is exhausted.
    pub finished: bool,
    /// A fatal error was reported; no further task is offered.
    pub failed: bool,
}

impl Driver {
    pub open spec fn wf(self) -> bool {
        &&& self.cur.valid()
        &&& self.to.valid()
        &&& (!self.finished ==> spec_date_le(self.cur, self.to))
    }

    /// The driver still offers a task.
    pub open spec fn is_active(self) -> bool {
        !self.failed && !self.finished
    }

    /// The current day's archive must be fetched: its file was not in the
    /// output directory when the run started.
    pub open spec fn spec_needs_fetch(self) -> bool {
        !names_contain(
            self.existing@,
            spec_full_log_name(self.cur, self.account@, self.cluster@),
        )
    }

    /// The state after a day is dealt with: the next day, or finished when
    /// the range's last day was handled.
    pub open spec fn spec_advance(self) -> Driver {
        if self.cur == self.to {
            Driver { finished: true, ..self }
        } else {
            Driver { cur: spec_next_day(self.cur), ..self }
        }
    }

    /// A driver for the days `from` through `to`, both inclusive, over a
    /// directory that already held the names in `existing`. An empty range
    /// (`from` after `to`) starts out finished.
    pub fn new(from: Date, to: Date, account: String, cluster: String, existing: Vec<String>) -> (r:
        Driver)
        requires
            from.valid(),
            to.valid(),
        ensures
            r.wf(),
            r.cur == from,
            r.to == to,
            r.account@ == account@,
            r.cluster@ == cluster@,
            r.existing@ == existing@,
            !r.failed,
            r.finished == !spec_date_le(from, to),
    {
        let finished = !from.le(&to);
        Driver { cur: from, to, account, cluster, existing, finished, failed: false }
    }

    /// The task at hand: `None` once the range is exhausted or a failure was
    /// reported, otherwise the current day's file name and URL.
    pub fn current(&self) -> (r: Option<DayTask>)
        requires
            self.wf(),
        ensures
            r is Some <==> self.is_active(),
            r matches Some(t) ==> {
                &&& t.date == self.cur
                &&& t.filename@ == spec_full_log_name(self.cur, self.account@, self.cluster@)
                &&& t.url@ == spec_full_log_url(self.cur, self.account@, self.cluster@)
            },
    {
        if self.failed || self.finished {
            None
        } else {
            let filename = full_log_filename(&self.cur, self.account.as_str(), self.cluster.as_str());
            let url = build_log_url(&self.cur, self.account.as_str(), self.cluster.as_str());
            Some(DayTask { date: self.cur, filename, url })
        }
    }

    /// Must the current day's archive be fetched? False exactly when its
    /// file name was already present in the output directory.
    pub fn needs_fetch(&self) -> (r: bool)
        requires
            self.wf(),
            self.is_active(),
        ensures
            r == self.spec_needs_fetch(),
    {
        let name = full_log_filename(&self.cur, self.account.as_str(), self.cluster.as_str());
        let mut i: usize = 0;
        while i < self.existing.len()
            invariant
                i <= self.existing.len(),
                name@ == spec_full_log_name(self.cur, self.account@, self.cluster@),
                forall|j: int| 0 <= j < i ==> self.existing@[j]@ != name@,
            decreases self.existing.len() - i,
        {
            if self.existing[i].eq(&name) {
                return false;
            }
            i = i + 1;
        }
        true
    }

    /// The current day is dealt with — skipped or fetched and written — and
    /// the driver moves to the next one.
    pub fn advance(&mut self)
        requires
            old(self).wf(),
            old(self).is_active(),
        ensures
            *final(self) == old(self).spec_advance(),
            final(self).wf(),
    {
        proof {
            lemma_order_matches_day_number(self.cur, self.to);
        }
        if self.cur == self.to {
            self.finished = true;
        } else {
            proof {
                lemma_order_matches_day_number(spec_next_day(self.cur), self.to);
            }
            self.cur = self.cur.next_day();
        }
    }

    /// A fatal error: the run is over, whatever was left of the range.
    pub fn fail(&mut self)
        ensures
            *final(self) == (Driver { failed: true, ..*old(self) }),
            !final(self).is_active(),
    {
        self.failed = true;
    }

    /// The dates of the tasks a run offers from this state on, one task per
    /// step, until the range is exhausted. A failed or finished driver
    /// offers none.
    pub open spec fn spec_run_dates(self) -> Seq<Date>
        decreases
                (if self.is_active() {
                    day_number(self.to) - day_number(self.cur) + 1
                } else {
                    0
                }),
        when self.wf()
        via Self::spec_run_dates_decreases
    {
        if !self.is_active() {
            Seq::<Date>::empty()
        } else {
            seq![self.cur] + self.spec_advance().spec_run_dates()
        }
    }

    #[via_fn]
    proof fn spec_run_dates_decreases(self) {
        if self.is_active() {
            self.lemma_one_task_per_day();
            lemma_order_matches_day_number(self.cur, self.to);
            if self.cur != self.to {
                lemma_order_matches_day_number(self.spec_advance().cur, self.to);
            }
        }
    }

    /// Law: one task per day. From an active state the run offers exactly
    /// one task per calendar day of the range `[cur, to]`, in calendar
    /// order — the i-th offered date is the i-th day of the range, every day
    /// of the range is offered, and no date twice. Whether a day's task
    /// fetches or skips is `spec_needs_fetch` at its state: a fetch happens
    /// exactly when the day's file was not already present
    /// (`needs_fetch`'s contract).
    pub proof fn lemma_run_covers_range(self)
        requires
            self.wf(),
        ensures
            self.is_active() ==> self.spec_run_dates().len() == day_number(self.to) - day_number(
                self.cur,
            ) + 1,
            !self.is_active() ==> self.spec_run_dates().len() == 0,
            forall|i: int|
                0 <= i < self.spec_run_dates().len() ==> (#[trigger] self.spec_run_dates()[i]).valid()
                    && day_number(self.spec_run_dates()[i]) == day_number(self.cur) + i,
            forall|x: Date|
                self.is_active() && x.valid() && #[trigger] spec_date_le(self.cur, x)
                    && spec_date_le(x, self.to) ==> self.spec_run_dates().contains(x),
            forall|i: int, j: int|
                0 <= i < j < self.spec_run_dates().len() ==> self.spec_run_dates()[i]
                    != self.spec_run_dates()[j],
        decreases
                (if self.is_active() {
                    day_number(self.to) - day_number(self.cur) + 1
                } else {
                    0
                }),
    {
        if self.is_active() {
            self.lemma_one_task_per_day();
            lemma_order_matches_day_number(self.cur, self.to);
            if self.cur != self.to {
                lemma_order_matches_day_number(self.spec_advance().cur, self.to);
            }
            let adv = self.spec_advance();
            adv.lemma_run_covers_range();
            let run = self.spec_run_dates();
            assert(run[0] == self.cur);
            assert forall|i: int| 0 <= i < run.len() implies (#[trigger] run[i]).valid()
                && day_number(run[i]) == day_number(self.cur) + i by {
                if i >= 1 {
                    assert(run[i] == adv.spec_run_dates()[i - 1]);
                }
            }
            assert forall|x: Date|
                x.valid() && #[trigger] spec_date_le(self.cur, x) && spec_date_le(x, self.to)
                    implies run.contains(x) by {
                lemma_order_matches_day_number(self.cur, x);
                lemma_order_matches_day_number(x, self.to);
                let i = day_number(x) - day_number(self.cur);
                assert(0 <= i < run.len());
                lemma_order_matches_day_number(x, run[i]);
                assert(run[i] == x);
            }
            assert forall|i: int, j: int| 0 <= i < j < run.len() implies run[i] != run[j] by {
                assert(day_number(run[i]) != day_number(run[j]));
            }
        }
    }

    /// One step of the run: dealing with a day moves the driver exactly one
    /// calendar day forward, or ends the range when its last day was
    /// handled. The offered date only ever grows.
    pub proof fn lemma_one_task_per_day(self)
        requires
            self.wf(),
            self.is_active(),
        ensures
            self.spec_advance().wf(),
            self.cur != self.to ==> day_number(self.spec_advance().cur) == day_number(self.cur)
                + 1,
            self.cur != self.to ==> spec_date_lt(self.cur, self.spec_advance().cur),
            self.cur == self.to ==> !self.spec_advance().is_active(),
    {
        lemma_order_matches_day_number(self.cur, self.to);
        if self.cur != self.to {
            crate::date::lemma_next_day_number(self.cur);
            lemma_order_matches_day_number(spec_next_day(self.cur), self.to);
        }
    }

    /// Law (idempotence): when the output directory already holds the
    /// archive of every day of the range — as it does after a completed
    /// run — no step of the run asks for a fetch: the current day's file is
    /// present, and so is the file of every day the run will offer, so a
    /// second run over the same range performs no request.
    pub proof fn lemma_rerun_fetches_nothing(self)
        requires
            self.wf(),
            self.is_active(),
            forall|x: Date|
                x.valid() && spec_date_le(self.cur, x) && spec_date_le(x, self.to)
                    ==> names_contain(
                    self.existing@,
                    #[trigger] spec_full_log_name(x, self.account@, self.cluster@),
                ),
        ensures
            !self.spec_needs_fetch(),
            forall|x: Date|
                self.spec_run_dates().contains(x) ==> names_contain(
                    self.existing@,
                    #[trigger] spec_full_log_name(x, self.account@, self.cluster@),
                ),
    {
        assert(names_contain(
            self.existing@,
            spec_full_log_name(self.cur, self.account@, self.cluster@),
        ));
        self.lemma_run_covers_range();
        let run = self.spec_run_dates();
        assert forall|x: Date| run.contains(x) implies names_contain(
            self.existing@,
            spec_full_log_name(x, self.account@, self.cluster@),
        ) by {
            let i = choose|i: int| 0 <= i < run.len() && run[i] == x;
            lemma_order_matches_day_number(self.cur, x);
            lemma_order_matches_day_number(x, self.to);
            assert(spec_date_le(self.cur, x) && spec_date_le(x, self.to));
        }
    }

    /// Law: a failure is final. A driver that has recorded a failure offers
    /// no task and no further date, and no step brings it back — later days
    /// of the range are never processed.
    pub proof fn lemma_failure_stops_run(self)
        requires
            self.wf(),
            self.failed,
        ensures
            !self.is_active(),
            !self.spec_advance().is_active(),
            self.spec_run_dates() == Seq::<Date>::empty(),
    {
    }
}

/// Did the HTTP status code report success? The fetcher treats exactly the
/// `2xx` codes as success; any other answer is fatal.
pub fn is_success_status(code: u16) -> (r: bool)
    ensures
        r == (200 <= code < 300),
{
    200 <= code && code < 300
}

} // verus!
