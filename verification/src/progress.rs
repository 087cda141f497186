//! The decisions behind the work-done progress indicator shown while
//! registry data is fetched: its token, its messages, and when a report or
//! an end notification is sent.

use vstd::prelude::*;
use crate::numfmt::{decimal, u64_to_string};

verus! {

/// The token of the progress indicator for a document.
pub open spec fn spec_progress_token(uri: Seq<char>) -> Seq<char> {
    "deps-fetch-"@ + uri
}

/// `deps-fetch-{uri}`.
pub fn progress_token(uri: &str) -> (r: String)
    ensures
        r@ == spec_progress_token(uri@),
{
    let mut r = String::from_str("deps-fetch-");
    r.append(uri);
    r
}

/// The title of the indicator.
pub fn progress_title() -> (r: &'static str)
    ensures
        r@ == "Fetching package versions"@,
{
    "Fetching package versions"
}

/// `Loading {total} dependencies...`.
pub fn begin_message(total_deps: u64) -> (r: String)
    ensures
        r@ == "Loading "@ + decimal(total_deps as nat) + " dependencies..."@,
{
    let mut r = String::from_str("Loading ");
    let n = u64_to_string(total_deps);
    r.append(n.as_str());
    r.append(" dependencies...");
    r
}

/// `Fetched {fetched}/{total} packages`.
pub fn report_message(fetched: u64, total: u64) -> (r: String)
    ensures
        r@ == "Fetched "@ + decimal(fetched as nat) + "/"@ + decimal(total as nat) + " packages"@,
{
    let mut r = String::from_str("Fetched ");
    let a = u64_to_string(fetched);
    let b = u64_to_string(total);
    r.append(a.as_str());
    r.append("/");
    r.append(b.as_str());
    r.append(" packages");
    r
}

/// The message of the end notification.
pub open spec fn spec_end_message(success: bool) -> Seq<char> {
    if success {
        "Package versions loaded"@
    } else {
        "Failed to fetch some versions"@
    }
}

/// The state of one progress indicator: its token, and whether it has
/// begun and not yet ended.
#[derive(Debug)]
pub struct ProgressTracker {
    token: String,
    active: bool,
}

impl ProgressTracker {
    pub closed spec fn spec_token(&self) -> Seq<char> {
        self.token@
    }

    pub closed spec fn spec_active(&self) -> bool {
        self.active
    }

    /// An indicator that has just begun for the document.
    pub fn start(uri: &str) -> (r: ProgressTracker)
        ensures
            r.spec_token() == spec_progress_token(uri@),
            r.spec_active(),
    {
        ProgressTracker { token: progress_token(uri), active: true }
    }

    pub fn token(&self) -> (r: &str)
        ensures
            r@ == self.spec_token(),
    {
        self.token.as_str()
    }

    pub fn is_active(&self) -> (r: bool)
        ensures
            r == self.spec_active(),
    {
        self.active
    }

    /// A report is sent only while the indicator is active and there is a
    /// total to report against.
    pub fn should_report(&self, total: u64) -> (r: bool)
        ensures
            r == (self.spec_active() && total != 0),
    {
        self.active && total != 0
    }

    /// Ends the indicator: the message to send, once; nothing where it had
    /// already ended (see `end_step`).
    pub fn end(&mut self, success: bool) -> (r: Option<&'static str>)
        ensures
            final(self).spec_active() == end_step(old(self).spec_active(), success).0,
            final(self).spec_token() == old(self).spec_token(),
            match r {
                Some(m) => end_step(old(self).spec_active(), success).1 == Some(m@),
                None => end_step(old(self).spec_active(), success).1 is None,
            },
    {
        if !self.active {
            return None;
        }
        self.active = false;
        if success {
            Some("Package versions loaded")
        } else {
            Some("Failed to fetch some versions")
        }
    }

    /// An indicator dropped while active still needs its end notification.
    pub fn needs_cleanup(&self) -> (r: bool)
        ensures
            r == self.spec_active(),
    {
        self.active
    }
}

/// What ending does to an indicator that is active or not: it is inactive
/// afterwards, and a message is sent only where it was active.
pub open spec fn end_step(active: bool, success: bool) -> (bool, Option<Seq<char>>) {
    if active {
        (false, Some(spec_end_message(success)))
    } else {
        (false, None)
    }
}

/// Ending is final: once an indicator has ended, ending it again sends
/// nothing, no report is sent for any total, and dropping it needs no
/// cleanup.
pub proof fn law_end_is_final(active: bool, first: bool, second: bool, total: u64)
    ensures
        end_step(end_step(active, first).0, second).1 is None,
        !(end_step(active, first).0 && total != 0),
        !end_step(active, first).0,
{
}

} // verus!
