//! The outcome of inspecting one descriptor file.

use crate::text::text_of;
use vstd::prelude::*;

verus! {

/// Outcome of inspecting a `.desktop` file.
#[derive(Debug, Clone, PartialEq, Eq)]
pub enum Status {
    /// The entry resolves, or legitimately names no executable.
    Healthy {
        /// The executable found on disk, if the entry names one.
        resolved_executable: Option<String>,
    },
    /// The entry fails validation.
    Broken {
        /// Why the entry is considered broken, in one line.
        reason: String,
    },
    /// The entry was intentionally not checked.
    Skipped {
        /// Why the entry was skipped, in one line.
        reason: String,
    },
}

/// What a [`Status`] holds.
pub enum StatusView {
    Healthy { resolved_executable: Option<Seq<char>> },
    Broken { reason: Seq<char> },
    Skipped { reason: Seq<char> },
}

impl View for Status {
    type V = StatusView;

    open spec fn view(&self) -> StatusView {
        match *self {
            Status::Healthy { resolved_executable } => StatusView::Healthy {
                resolved_executable: text_of(resolved_executable),
            },
            Status::Broken { reason } => StatusView::Broken { reason: reason@ },
            Status::Skipped { reason } => StatusView::Skipped { reason: reason@ },
        }
    }
}

/// The result of scanning a single `.desktop` file.
#[derive(Debug, Clone, PartialEq, Eq)]
pub struct Finding {
    /// Path of the file inspected.
    pub desktop_file: String,
    /// Value of the `Name` key, if present.
    pub name: Option<String>,
    /// Value of the `Exec` key, if present.
    pub exec_line: Option<String>,
    /// Value of the `TryExec` key, if present.
    pub try_exec: Option<String>,
    /// Value of the `Path` key, if present.
    pub path_key: Option<String>,
    /// Whether `Hidden` is true.
    pub hidden: bool,
    /// Whether `NoDisplay` is true.
    pub no_display: bool,
    /// Inspection outcome.
    pub status: Status,
}

/// What a [`Finding`] holds.
pub struct FindingView {
    pub desktop_file: Seq<char>,
    pub name: Option<Seq<char>>,
    pub exec_line: Option<Seq<char>>,
    pub try_exec: Option<Seq<char>>,
    pub path_key: Option<Seq<char>>,
    pub hidden: bool,
    pub no_display: bool,
    pub status: StatusView,
}

impl View for Finding {
    type V = FindingView;

    open spec fn view(&self) -> FindingView {
        FindingView {
            desktop_file: self.desktop_file@,
            name: text_of(self.name),
            exec_line: text_of(self.exec_line),
            try_exec: text_of(self.try_exec),
            path_key: text_of(self.path_key),
            hidden: self.hidden,
            no_display: self.no_display,
            status: self.status@,
        }
    }
}

impl Status {
    /// Whether this is a [`Status::Broken`].
    pub fn is_broken(&self) -> (r: bool)
        ensures
            r == (self@ is Broken),
    {
        match self {
            Status::Broken { .. } => true,
            _ => false,
        }
    }
}

/// The findings among `findings` that are broken, in order.
pub open spec fn broken_among(findings: Seq<Finding>) -> Seq<Finding>
    decreases findings.len(),
{
    if findings.len() == 0 {
        Seq::empty()
    } else {
        let before = broken_among(findings.drop_last());
        if findings.last().status@ is Broken {
            before.push(findings.last())
        } else {
            before
        }
    }
}

/// Keeps the broken findings, in their order. A scan is clean if and only
/// if none remains.
pub fn broken_findings(findings: Vec<Finding>) -> (r: Vec<Finding>)
    ensures
        r@ == broken_among(findings@),
{
    let ghost all = findings@;
    let mut out: Vec<Finding> = Vec::new();
    assert(all.take(0) == Seq::<Finding>::empty());
    for finding in it: findings
        invariant
            it.seq() == all,
            out@ == broken_among(all.take(it.index() as int)),
    {
        assert(all.take(it.index() + 1).drop_last() == all.take(it.index() as int));
        assert(all.take(it.index() + 1).last() == finding);
        if finding.status.is_broken() {
            out.push(finding);
        }
    }
    assert(all.take(all.len() as int) == all);
    out
}

} // verus!
