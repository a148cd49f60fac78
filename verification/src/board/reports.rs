//! Reports of posts that break the rules: who may report what, how often, and
//! how moderators close them.
use vstd::prelude::*;

verus! {

/// Reports a member may file within the report window.
pub const REPORTS_PER_HOUR: u64 = 10;
/// The report window, in seconds.
pub const REPORT_WINDOW: i64 = 3600;

/// Why a report was refused or could not be closed.
#[derive(Debug, Clone, Copy, PartialEq, Eq, Structural)]
pub enum ReportError {
    TargetNotFound,
    AlreadyReported,
    TooMany,
    NotAuthorized,
    NotFound,
    AlreadyClosed,
}

/// What a report is about: a subject, or a remark under a subject.
#[derive(Debug, Clone, Copy, PartialEq, Eq, Structural)]
pub enum ReportTarget {
    Topic(u128),
    Comment(u128, u128),
}

/// What a report points at: a remark must be found under the subject named,
/// a subject must be found. `comment_topic` is the subject of the remark when
/// the remark is found; `topic_found` whether the subject is found.
pub fn report_target(topic_id: u128, comment_id: Option<u128>, comment_topic: Option<u128>, topic_found: bool) -> (r: Result<ReportTarget, ReportError>)
    ensures
        r == (match comment_id {
            Some(c) => match comment_topic {
                Some(t) => if t == topic_id {
                    Ok::<ReportTarget, ReportError>(ReportTarget::Comment(topic_id, c))
                } else {
                    Err(ReportError::TargetNotFound)
                },
                None => Err(ReportError::TargetNotFound),
            },
            None => if topic_found {
                Ok(ReportTarget::Topic(topic_id))
            } else {
                Err(ReportError::TargetNotFound)
            },
        }),
{
    match comment_id {
        Some(c) => match comment_topic {
            Some(t) => {
                if t == topic_id {
                    Ok(ReportTarget::Comment(topic_id, c))
                } else {
                    Err(ReportError::TargetNotFound)
                }
            },
            None => Err(ReportError::TargetNotFound),
        },
        None => {
            if topic_found {
                Ok(ReportTarget::Topic(topic_id))
            } else {
                Err(ReportError::TargetNotFound)
            }
        },
    }
}

/// Whether a report of a found target is taken: not while the same member's
/// report of it is still open, and not beyond the member's reports per hour.
pub fn report_verdict(open_by_reporter: bool, reports_in_window: u64) -> (r: Result<(), ReportError>)
    ensures
        r == (if open_by_reporter {
            Err::<(), ReportError>(ReportError::AlreadyReported)
        } else if reports_in_window >= REPORTS_PER_HOUR {
            Err(ReportError::TooMany)
        } else {
            Ok(())
        }),
{
    if open_by_reporter {
        return Err(ReportError::AlreadyReported);
    }
    if reports_in_window >= REPORTS_PER_HOUR {
        return Err(ReportError::TooMany);
    }
    Ok(())
}

/// The moment from which a member's reports count toward the hourly limit.
pub fn report_window_start(now: i64) -> (r: i64)
    requires
        now >= i64::MIN + REPORT_WINDOW,
    ensures
        r == now - REPORT_WINDOW,
{
    now - REPORT_WINDOW
}

/// Whether the open reports may be listed: only by a moderator.
pub fn list_reports_verdict(is_moderator: bool) -> (r: Result<(), ReportError>)
    ensures
        r == (if is_moderator { Ok::<(), ReportError>(()) } else { Err(ReportError::NotAuthorized) }),
{
    if is_moderator {
        Ok(())
    } else {
        Err(ReportError::NotAuthorized)
    }
}

/// Whether a report may be closed: only by a moderator, only a report that is
/// found, and only one still open. `open` says whether the report, when found, is open.
pub fn close_verdict(is_moderator: bool, open: Option<bool>) -> (r: Result<(), ReportError>)
    ensures
        r == (if !is_moderator {
            Err::<(), ReportError>(ReportError::NotAuthorized)
        } else {
            match open {
                None => Err(ReportError::NotFound),
                Some(o) => if !o {
                    Err(ReportError::AlreadyClosed)
                } else {
                    Ok(())
                },
            }
        }),
{
    if !is_moderator {
        return Err(ReportError::NotAuthorized);
    }
    match open {
        None => Err(ReportError::NotFound),
        Some(o) => {
            if !o {
                Err(ReportError::AlreadyClosed)
            } else {
                Ok(())
            }
        },
    }
}

} // verus!
