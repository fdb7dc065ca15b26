//! Remote URLs of the hosting provider's log service.
//!
//! A day's full archive lives at
//! `https://logs.{cluster}.hosting.ovh.net/{account}.{cluster}.hosting.ovh.net/logs/logs-{MM-YYYY}/{account}.{cluster}.hosting.ovh.net-{DD-MM-YYYY}.log.gz`,
//! and the current day's partial log at
//! `https://logs.{cluster}.hosting.ovh.net/{account}.{cluster}.hosting.ovh.net/osl/{account}.{cluster}.hosting.ovh.net-{DD-MM-YYYY}.log`.
//! The partial URL is only served for the current day; whether the date is
//! today is the caller's affair.

use vstd::prelude::*;
use crate::date::Date;
use crate::text::{spec_dec2, spec_dec4, push_str, push_dec2, push_dec4};

verus! {

/// The date as `DD-MM-YYYY`, the form the provider's URLs carry.
pub open spec fn spec_url_date(d: Date) -> Seq<char> {
    spec_dec2(d.day as int) + "-"@ + spec_dec2(d.month as int) + "-"@ + spec_dec4(d.year as int)
}

/// `{account}.{cluster}.hosting.ovh.net`, the host directory part of both
/// URL forms.
pub open spec fn spec_site_name(account: Seq<char>, cluster: Seq<char>) -> Seq<char> {
    account + "."@ + cluster + ".hosting.ovh.net"@
}

/// URL of the finished, compressed archive of `d`.
pub open spec fn spec_full_log_url(d: Date, account: Seq<char>, cluster: Seq<char>) -> Seq<char> {
    "https://logs."@ + cluster + ".hosting.ovh.net/"@ + spec_site_name(account, cluster)
        + "/logs/logs-"@ + spec_dec2(d.month as int) + "-"@ + spec_dec4(d.year as int) + "/"@
        + spec_site_name(account, cluster) + "-"@ + spec_url_date(d) + ".log.gz"@
}

/// URL of the in-progress, uncompressed log of `d`, served only while `d` is
/// the current day.
pub open spec fn spec_partial_log_url(d: Date, account: Seq<char>, cluster: Seq<char>) -> Seq<
    char,
> {
    "https://logs."@ + cluster + ".hosting.ovh.net/"@ + spec_site_name(account, cluster) + "/osl/"@
        + spec_site_name(account, cluster) + "-"@ + spec_url_date(d) + ".log"@
}

fn push_site_name(s: &mut String, account: &str, cluster: &str)
    ensures
        final(s)@ == old(s)@ + spec_site_name(account@, cluster@),
{
    push_str(s, account);
    push_str(s, ".");
    push_str(s, cluster);
    push_str(s, ".hosting.ovh.net");
    proof {
        assert(s@ =~= old(s)@ + spec_site_name(account@, cluster@));
    }
}

fn push_url_date(s: &mut String, day: &Date)
    requires
        day.valid(),
    ensures
        final(s)@ == old(s)@ + spec_url_date(*day),
{
    push_dec2(s, day.day);
    push_str(s, "-");
    push_dec2(s, day.month);
    push_str(s, "-");
    push_dec4(s, day.year);
    proof {
        assert(s@ =~= old(s)@ + spec_url_date(*day));
    }
}

/// URL of the full daily archive of `day`.
pub fn build_log_url(day: &Date, account: &str, cluster: &str) -> (r: String)
    requires
        day.valid(),
    ensures
        r@ == spec_full_log_url(*day, account@, cluster@),
{
    let mut s = String::new();
    push_str(&mut s, "https://logs.");
    push_str(&mut s, cluster);
    push_str(&mut s, ".hosting.ovh.net/");
    push_site_name(&mut s, account, cluster);
    push_str(&mut s, "/logs/logs-");
    push_dec2(&mut s, day.month);
    push_str(&mut s, "-");
    push_dec4(&mut s, day.year);
    push_str(&mut s, "/");
    push_site_name(&mut s, account, cluster);
    push_str(&mut s, "-");
    push_url_date(&mut s, day);
    push_str(&mut s, ".log.gz");
    proof {
        assert(s@ =~= spec_full_log_url(*day, account@, cluster@));
    }
    s
}

/// URL of the current day's partial log.
pub fn build_partial_url(day: &Date, account: &str, cluster: &str) -> (r: String)
    requires
        day.valid(),
    ensures
        r@ == spec_partial_log_url(*day, account@, cluster@),
{
    let mut s = String::new();
    push_str(&mut s, "https://logs.");
    push_str(&mut s, cluster);
    push_str(&mut s, ".hosting.ovh.net/");
    push_site_name(&mut s, account, cluster);
    push_str(&mut s, "/osl/");
    push_site_name(&mut s, account, cluster);
    push_str(&mut s, "-");
    push_url_date(&mut s, day);
    push_str(&mut s, ".log");
    proof {
        assert(s@ =~= spec_partial_log_url(*day, account@, cluster@));
    }
    s
}

} // verus!
