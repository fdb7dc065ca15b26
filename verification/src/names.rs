//! Local file names for the downloaded logs, and the selection of stale
//! partial logs.
//!
//! A day's archive is stored under
//! `{account}.{cluster}.hosting.ovh.net-{YYYY-MM-DD}.log.gz`; the current
//! day's partial log under the same base name with extension `.log`. The
//! year-first date keeps directory listings in chronological order.

use vstd::prelude::*;
use crate::date::{Date, spec_date_lt};
use crate::text::{
    lex_lt, lemma_lex_lt_parts, spec_dec2, spec_dec4, lemma_dec2_order, lemma_dec4_order,
    push_str, push_dec2, push_dec4,
};

verus! {

/// The date as `YYYY-MM-DD`: sortable, so file names sort chronologically.
pub open spec fn spec_sortable_date(d: Date) -> Seq<char> {
    spec_dec4(d.year as int) + "-"@ + spec_dec2(d.month as int) + "-"@ + spec_dec2(d.day as int)
}

/// Base file name: `{account}.{cluster}.hosting.ovh.net-{YYYY-MM-DD}`.
pub open spec fn spec_base_name(d: Date, account: Seq<char>, cluster: Seq<char>) -> Seq<char> {
    account + "."@ + cluster + ".hosting.ovh.net-"@ + spec_sortable_date(d)
}

/// Full-archive file name: the base name with extension `.log.gz`.
pub open spec fn spec_full_log_name(d: Date, account: Seq<char>, cluster: Seq<char>) -> Seq<
    char,
> {
    spec_base_name(d, account, cluster) + ".log.gz"@
}

/// Partial-log file name: the base name with extension `.log`.
pub open spec fn spec_partial_log_name(d: Date, account: Seq<char>, cluster: Seq<char>) -> Seq<
    char,
> {
    spec_base_name(d, account, cluster) + ".log"@
}

/// Base name of a day's log files, without extension.
pub fn build_filename(day: &Date, account: &str, cluster: &str) -> (r: String)
    requires
        day.valid(),
    ensures
        r@ == spec_base_name(*day, account@, cluster@),
{
    let mut s = String::new();
    push_str(&mut s, account);
    push_str(&mut s, ".");
    push_str(&mut s, cluster);
    push_str(&mut s, ".hosting.ovh.net-");
    push_dec4(&mut s, day.year);
    push_str(&mut s, "-");
    push_dec2(&mut s, day.month);
    push_str(&mut s, "-");
    push_dec2(&mut s, day.day);
    proof {
        assert(s@ =~= spec_base_name(*day, account@, cluster@));
    }
    s
}

/// File name of a day's full archive, `{base}.log.gz`.
pub fn full_log_filename(day: &Date, account: &str, cluster: &str) -> (r: String)
    requires
        day.valid(),
    ensures
        r@ == spec_full_log_name(*day, account@, cluster@),
{
    let mut s = build_filename(day, account, cluster);
    push_str(&mut s, ".log.gz");
    s
}

/// File name of a day's partial log, `{base}.log`.
pub fn partial_log_filename(day: &Date, account: &str, cluster: &str) -> (r: String)
    requires
        day.valid(),
    ensures
        r@ == spec_partial_log_name(*day, account@, cluster@),
{
    let mut s = build_filename(day, account, cluster);
    push_str(&mut s, ".log");
    s
}

proof fn lemma_lex_irrefl(a: Seq<char>)
    ensures
        !lex_lt(a, a),
    decreases a.len(),
{
    if a.len() > 0 {
        lemma_lex_irrefl(a.skip(1));
    }
}

proof fn lemma_sortable_date_order(d1: Date, d2: Date)
    requires
        d1.valid(),
        d2.valid(),
        spec_date_lt(d1, d2),
    ensures
        lex_lt(spec_sortable_date(d1), spec_sortable_date(d2)),
{
    let y1 = spec_dec4(d1.year as int);
    let y2 = spec_dec4(d2.year as int);
    let m1 = spec_dec2(d1.month as int);
    let m2 = spec_dec2(d2.month as int);
    let dd1 = spec_dec2(d1.day as int);
    let dd2 = spec_dec2(d2.day as int);
    let dash = "-"@;
    let b1 = dash + (m1 + (dash + dd1));
    let b2 = dash + (m2 + (dash + dd2));
    assert(spec_sortable_date(d1) =~= y1 + b1);
    assert(spec_sortable_date(d2) =~= y2 + b2);
    lemma_dec4_order(d1.year as int, d2.year as int);
    lemma_lex_lt_parts(y1, y2, b1, b2);
    if d1.year == d2.year {
        lemma_lex_irrefl(dash);
        lemma_lex_lt_parts(dash, dash, m1 + (dash + dd1), m2 + (dash + dd2));
        lemma_dec2_order(d1.month as int, d2.month as int);
        lemma_lex_lt_parts(m1, m2, dash + dd1, dash + dd2);
        if d1.month == d2.month {
            lemma_lex_lt_parts(dash, dash, dd1, dd2);
            lemma_dec2_order(d1.day as int, d2.day as int);
        }
    }
}

/// Law: file names sort like their dates. For any two valid dates in
/// calendar order, the earlier date's base file name is lexicographically
/// smaller, so a sorted directory listing is in chronological order.
pub proof fn lemma_filename_sorted(d1: Date, d2: Date, account: Seq<char>, cluster: Seq<char>)
    requires
        d1.valid(),
        d2.valid(),
        spec_date_lt(d1, d2),
    ensures
        lex_lt(
            spec_base_name(d1, account, cluster),
            spec_base_name(d2, account, cluster),
        ),
{
    let p = account + "."@ + cluster + ".hosting.ovh.net-"@;
    assert(spec_base_name(d1, account, cluster) =~= p + spec_sortable_date(d1));
    assert(spec_base_name(d2, account, cluster) =~= p + spec_sortable_date(d2));
    lemma_lex_irrefl(p);
    lemma_lex_lt_parts(p, p, spec_sortable_date(d1), spec_sortable_date(d2));
    lemma_sortable_date_order(d1, d2);
}

/// `s` ends with the characters of `suffix`.
pub open spec fn spec_ends_with(s: Seq<char>, suffix: Seq<char>) -> bool {
    s.len() >= suffix.len() && s.subrange(s.len() - suffix.len(), s.len() as int) == suffix
}

/// Relies on `str::ends_with` with a `&str` pattern: true exactly when the
/// characters of `suffix` are the final characters of `s`.
#[verifier::external_body]
fn str_ends_with(s: &str, suffix: &str) -> (r: bool)
    ensures
        r == spec_ends_with(s@, suffix@),
{
    s.ends_with(suffix)
}

/// A file name whose extension is exactly `log`: it ends in `.log` and the
/// part before that dot is not empty (a bare `.log` is a hidden file with no
/// extension, and is left alone).
pub open spec fn spec_is_partial_log_name(s: Seq<char>) -> bool {
    s.len() >= 5 && spec_ends_with(s, ".log"@)
}

/// Does `name` carry the extension `log`?
pub fn is_partial_log_name(name: &String) -> (r: bool)
    ensures
        r == spec_is_partial_log_name(name@),
{
    proof {
        reveal_strlit(".log");
    }
    if !str_ends_with(name.as_str(), ".log") {
        return false;
    }
    // The name ends in the four characters `.log`; it has the extension
    // unless it is nothing more than them.
    let bare: String = ".log".to_owned();
    let r = !name.eq(&bare);
    proof {
        if name@.len() == 4 {
            assert(name@.subrange(0, 4) =~= name@);
        }
    }
    r
}

/// The entries of a directory listing that hold stale partial logs: exactly
/// those whose extension is `log`, in their listed order. Everything else —
/// in particular every `.log.gz` archive — is left out.
pub fn select_partial_logs(entries: &Vec<String>) -> (r: Vec<String>)
    ensures
        r@.map_values(|s: String| s@) == entries@.map_values(|s: String| s@).filter(
            |t: Seq<char>| spec_is_partial_log_name(t),
        ),
{
    let mut r: Vec<String> = Vec::new();
    let mut i: usize = 0;
    proof {
        assert(entries@.subrange(0, 0).map_values(|s: String| s@) =~= Seq::<Seq<char>>::empty());
        assert(r@.map_values(|s: String| s@) =~= Seq::<Seq<char>>::empty().filter(
            |t: Seq<char>| spec_is_partial_log_name(t),
        )) by {
            reveal(Seq::filter);
        }
    }
    while i < entries.len()
        invariant
            i <= entries.len(),
            r@.map_values(|s: String| s@) == entries@.subrange(0, i as int).map_values(
                |s: String| s@,
            ).filter(|t: Seq<char>| spec_is_partial_log_name(t)),
        decreases entries.len() - i,
    {
        let ghost prefix = entries@.subrange(0, i as int).map_values(|s: String| s@);
        let ghost old_r = r@;
        if is_partial_log_name(&entries[i]) {
            r.push(entries[i].clone());
        }
        proof {
            lemma_filter_push(prefix, entries@[i as int]@);
            assert(entries@.subrange(0, i + 1).map_values(|s: String| s@) =~= prefix.push(
                entries@[i as int]@,
            ));
            if spec_is_partial_log_name(entries@[i as int]@) {
                assert(r@.map_values(|s: String| s@) =~= old_r.map_values(|s: String| s@).push(
                    entries@[i as int]@,
                ));
            }
        }
        i = i + 1;
    }
    proof {
        assert(entries@.subrange(0, entries@.len() as int) =~= entries@);
    }
    r
}

proof fn lemma_filter_push(s: Seq<Seq<char>>, x: Seq<char>)
    ensures
        s.push(x).filter(|t: Seq<char>| spec_is_partial_log_name(t)) == (if spec_is_partial_log_name(
            x,
        ) {
            s.filter(|t: Seq<char>| spec_is_partial_log_name(t)).push(x)
        } else {
            s.filter(|t: Seq<char>| spec_is_partial_log_name(t))
        }),
{
    reveal(Seq::filter);
    assert(s.push(x).drop_last() =~= s);
    assert(s.push(x).last() == x);
}

/// Law: the partial-log cleanup never touches a compressed archive. A name
/// that ends in `.gz` never has the extension `log`, so it is never selected
/// for removal.
pub proof fn lemma_gz_never_selected(s: Seq<char>)
    requires
        spec_ends_with(s, ".gz"@),
    ensures
        !spec_is_partial_log_name(s),
{
    reveal_strlit(".gz");
    reveal_strlit(".log");
    if spec_is_partial_log_name(s) {
        let n = s.len() as int;
        assert(s[n - 1] == ".gz"@[2]);
        assert(s[n - 1] == ".log"@[3]);
    }
}

} // verus!
