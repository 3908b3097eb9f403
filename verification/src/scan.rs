//! Inspecting descriptor files.
//!
//! An [`Inspection`] turns one descriptor file into one [`Finding`]. It
//! reads nothing itself: it names the file to read and the paths to look
//! at, one at a time, and the caller supplies what the disk says.

use crate::args::Args;
use crate::check::{
    absolute_path_resolves_to_itself, exec_verdict, resolved, shell_words, validate_exec,
    validate_tryexec, verdict_of, CheckContext, FileSystem, Probe, ProbeView, Snapshot,
    Validation, Verdict,
};
use crate::desktop::{
    desktop_entry_fields, executable_token, field_map, is_truthy, parse_bool,
    parse_desktop_entry_section,
};
use crate::paths::is_absolute;
use crate::report::{Finding, FindingView, Status, StatusView};
use crate::text::{joined, same_text, text_of};
use vstd::hash_map::StringHashMap;
use vstd::prelude::*;
use vstd::string::*;

verus! {

/// The value of `key` in `fields`, if it has one.
pub open spec fn field(fields: Map<Seq<char>, Seq<char>>, key: Seq<char>) -> Option<Seq<char>> {
    if fields.contains_key(key) {
        Some(fields[key])
    } else {
        None
    }
}

/// Whether the value of a boolean key is present and true.
pub open spec fn flag(fields: Map<Seq<char>, Seq<char>>, key: Seq<char>) -> bool {
    fields.contains_key(key) && is_truthy(fields[key])
}

/// The keys of a descriptor that an inspection reads.
#[derive(Debug, Clone, PartialEq, Eq)]
pub struct Descriptor {
    /// Value of the `Name` key.
    pub name: Option<String>,
    /// Value of the `Exec` key.
    pub exec_line: Option<String>,
    /// Value of the `TryExec` key.
    pub try_exec: Option<String>,
    /// Value of the `Path` key.
    pub path_key: Option<String>,
    /// Whether `Hidden` is true.
    pub hidden: bool,
    /// Whether `NoDisplay` is true.
    pub no_display: bool,
    /// Value of the `Type` key.
    pub kind: Option<String>,
    /// Whether `DBusActivatable` is true.
    pub bus_activatable: bool,
}

/// What a [`Descriptor`] holds.
pub struct DescriptorView {
    pub name: Option<Seq<char>>,
    pub exec_line: Option<Seq<char>>,
    pub try_exec: Option<Seq<char>>,
    pub path_key: Option<Seq<char>>,
    pub hidden: bool,
    pub no_display: bool,
    pub kind: Option<Seq<char>>,
    pub bus_activatable: bool,
}

impl View for Descriptor {
    type V = DescriptorView;

    open spec fn view(&self) -> DescriptorView {
        DescriptorView {
            name: text_of(self.name),
            exec_line: text_of(self.exec_line),
            try_exec: text_of(self.try_exec),
            path_key: text_of(self.path_key),
            hidden: self.hidden,
            no_display: self.no_display,
            kind: text_of(self.kind),
            bus_activatable: self.bus_activatable,
        }
    }
}

/// The descriptor that the text of a file defines.
pub open spec fn descriptor(content: Seq<char>) -> DescriptorView {
    let fields = desktop_entry_fields(content);
    DescriptorView {
        name: field(fields, "Name"@),
        exec_line: field(fields, "Exec"@),
        try_exec: field(fields, "TryExec"@),
        path_key: field(fields, "Path"@),
        hidden: flag(fields, "Hidden"@),
        no_display: flag(fields, "NoDisplay"@),
        kind: field(fields, "Type"@),
        bus_activatable: flag(fields, "DBusActivatable"@),
    }
}

/// The status of an entry whose `Exec` line has the given verdict.
/// `after_try_exec` says that its `TryExec` was present and resolved.
pub open spec fn exec_status(verdict: Verdict, after_try_exec: bool) -> StatusView {
    match verdict {
        Ok(Some(path)) => StatusView::Healthy { resolved_executable: Some(path) },
        Ok(None) => StatusView::Broken {
            reason: if after_try_exec {
                "Exec does not resolve (even though TryExec does)"@
            } else {
                "Exec does not resolve"@
            },
        },
        Err(problem) => StatusView::Broken { reason: "Exec check failed: "@ + problem },
    }
}

/// The status that is settled by the descriptor alone, before anything is
/// looked up on disk: the skip rules, a bus-activated entry without `Exec`,
/// and an entry that names no executable. `None` when the status depends on
/// the disk.
pub open spec fn early_status(d: DescriptorView, include_hidden: bool) -> Option<StatusView> {
    if !include_hidden && (d.hidden || d.no_display) {
        Some(
            StatusView::Skipped {
                reason: "Hidden=true or NoDisplay=true (use --include-hidden to scan these)"@,
            },
        )
    } else if d.kind is Some && d.kind->0 != "Application"@ {
        Some(
            StatusView::Skipped {
                reason: "Type="@ + d.kind->0 + " (only Type=Application is checked)"@,
            },
        )
    } else if d.bus_activatable && d.exec_line is None {
        Some(StatusView::Healthy { resolved_executable: None })
    } else if d.try_exec is None && d.exec_line is None {
        Some(StatusView::Broken { reason: "No Exec key found (and not DBusActivatable)"@ })
    } else {
        None
    }
}

/// The status of an entry.
///
/// `try_exec` is what its `TryExec` value resolves to and `launch` the
/// verdict on its `Exec` line; each is read only where the key is present.
/// A `TryExec` that does not resolve settles the matter. One that resolves
/// leaves the decision to `Exec`, if there is one.
pub open spec fn status(
    d: DescriptorView,
    include_hidden: bool,
    try_exec: Option<Seq<char>>,
    launch: Verdict,
) -> StatusView {
    match early_status(d, include_hidden) {
        Some(settled) => settled,
        None => if d.try_exec is Some {
            match try_exec {
                None => StatusView::Broken { reason: "TryExec does not resolve: "@ + d.try_exec->0 },
                Some(path) => if d.exec_line is Some {
                    exec_status(launch, true)
                } else {
                    StatusView::Healthy { resolved_executable: Some(path) }
                },
            }
        } else {
            exec_status(launch, false)
        },
    }
}

/// The finding on `desktop_file`, whose descriptor is `d`.
pub open spec fn finding_of(desktop_file: Seq<char>, d: DescriptorView, status: StatusView) -> FindingView {
    FindingView {
        desktop_file,
        name: d.name,
        exec_line: d.exec_line,
        try_exec: d.try_exec,
        path_key: d.path_key,
        hidden: d.hidden,
        no_display: d.no_display,
        status,
    }
}

/// The finding on a file that could not be read.
pub open spec fn unreadable(desktop_file: Seq<char>, error: Seq<char>) -> FindingView {
    FindingView {
        desktop_file,
        name: None,
        exec_line: None,
        try_exec: None,
        path_key: None,
        hidden: false,
        no_display: false,
        status: StatusView::Broken { reason: "Failed to read/parse file: "@ + error },
    }
}

/// The finding on a descriptor with the text `content`, given the shell
/// words of its `Exec` line.
pub open spec fn finding_for(
    desktop_file: Seq<char>,
    content: Seq<char>,
    words: Option<Seq<Seq<char>>>,
    path_env: Seq<char>,
    include_hidden: bool,
    check_script_args: bool,
    fs: FileSystem,
) -> FindingView {
    let d = descriptor(content);
    finding_of(
        desktop_file,
        d,
        status(
            d,
            include_hidden,
            resolved(d.try_exec->0, path_env, d.path_key, fs),
            exec_verdict(words, path_env, d.path_key, check_script_args, fs),
        ),
    )
}

/// The finding on `desktop_file`, where reading it gave `content` (its text,
/// or the text of the error) and the disk holds `fs`.
pub open spec fn inspection(
    desktop_file: Seq<char>,
    content: Result<Seq<char>, Seq<char>>,
    path_env: Seq<char>,
    include_hidden: bool,
    check_script_args: bool,
    fs: FileSystem,
) -> FindingView {
    match content {
        Err(error) => unreadable(desktop_file, error),
        Ok(text) => finding_for(
            desktop_file,
            text,
            shell_words(descriptor(text).exec_line->0),
            path_env,
            include_hidden,
            check_script_args,
            fs,
        ),
    }
}

/// A copy of the value of `key` in `fields`.
fn get_field(fields: &StringHashMap<String>, key: &str) -> (r: Option<String>)
    ensures
        text_of(r) == field(field_map(*fields), key@),
{
    match fields.get(key) {
        Some(value) => Some(value.clone()),
        None => None,
    }
}

/// Whether the boolean `key` of `fields` is present and true.
fn get_flag(fields: &StringHashMap<String>, key: &str) -> (r: bool)
    ensures
        r == flag(field_map(*fields), key@),
{
    parse_bool(fields.get(key))
}

/// Reads the keys that an inspection needs from the text of a descriptor.
pub fn read_descriptor(content: &str) -> (d: Descriptor)
    ensures
        d@ == descriptor(content@),
{
    let fields = parse_desktop_entry_section(content);
    Descriptor {
        name: get_field(&fields, "Name"),
        exec_line: get_field(&fields, "Exec"),
        try_exec: get_field(&fields, "TryExec"),
        path_key: get_field(&fields, "Path"),
        hidden: get_flag(&fields, "Hidden"),
        no_display: get_flag(&fields, "NoDisplay"),
        kind: get_field(&fields, "Type"),
        bus_activatable: get_flag(&fields, "DBusActivatable"),
    }
}

/// The status that the descriptor settles by itself: see [`early_status`].
pub fn settle_early(d: &Descriptor, include_hidden: bool) -> (r: Option<Status>)
    ensures
        match r {
            Some(status) => early_status(d@, include_hidden) == Some(status@),
            None => early_status(d@, include_hidden) is None,
        },
{
    if !include_hidden && (d.hidden || d.no_display) {
        return Some(
            Status::Skipped {
                reason: String::from_str(
                    "Hidden=true or NoDisplay=true (use --include-hidden to scan these)",
                ),
            },
        );
    }
    match &d.kind {
        Some(kind) => {
            if !same_text(kind.as_str(), "Application") {
                let mut reason = joined("Type=", kind.as_str());
                reason.append(" (only Type=Application is checked)");
                return Some(Status::Skipped { reason });
            }
        },
        None => {},
    }
    if d.bus_activatable && d.exec_line.is_none() {
        return Some(Status::Healthy { resolved_executable: None });
    }
    if d.try_exec.is_none() && d.exec_line.is_none() {
        return Some(
            Status::Broken {
                reason: String::from_str("No Exec key found (and not DBusActivatable)"),
            },
        );
    }
    None
}

/// The status of an entry from the verdict on its `Exec` line: see
/// [`exec_status`].
pub fn status_of_exec(verdict: Result<Option<String>, String>, after_try_exec: bool) -> (r: Status)
    ensures
        r@ == exec_status(verdict_of(verdict), after_try_exec),
{
    match verdict {
        Ok(Some(path)) => Status::Healthy { resolved_executable: Some(path) },
        Ok(None) => Status::Broken {
            reason: if after_try_exec {
                String::from_str("Exec does not resolve (even though TryExec does)")
            } else {
                String::from_str("Exec does not resolve")
            },
        },
        Err(problem) => Status::Broken { reason: joined("Exec check failed: ", problem.as_str()) },
    }
}

/// The finding on a file that could not be read, with the text of the
/// error.
pub fn unreadable_finding(desktop_file: String, error: &str) -> (r: Finding)
    ensures
        r@ == unreadable(desktop_file@, error@),
{
    Finding {
        desktop_file,
        name: None,
        exec_line: None,
        try_exec: None,
        path_key: None,
        hidden: false,
        no_display: false,
        status: Status::Broken { reason: joined("Failed to read/parse file: ", error) },
    }
}

/// The finding on `desktop_file` with the descriptor `d` and the given
/// status.
pub fn make_finding(desktop_file: String, d: Descriptor, status: Status) -> (r: Finding)
    ensures
        r@ == finding_of(desktop_file@, d@, status@),
{
    Finding {
        desktop_file,
        name: d.name,
        exec_line: d.exec_line,
        try_exec: d.try_exec,
        path_key: d.path_key,
        hidden: d.hidden,
        no_display: d.no_display,
        status,
    }
}

/// What an inspection asks of its caller.
#[derive(Debug, Clone, PartialEq, Eq)]
pub enum Request {
    /// Read this file as text.
    Read(String),
    /// Answer this question about the disk.
    Probe(Probe),
}

/// What a [`Request`] holds.
pub enum RequestView {
    Read(Seq<char>),
    Probe(ProbeView),
}

impl View for Request {
    type V = RequestView;

    open spec fn view(&self) -> RequestView {
        match *self {
            Request::Read(path) => RequestView::Read(path@),
            Request::Probe(probe) => RequestView::Probe(probe@),
        }
    }
}

/// The contents of what reading a file gave: its text, or the text of the
/// error.
pub open spec fn content_of(content: Result<String, String>) -> Result<Seq<char>, Seq<char>> {
    match content {
        Ok(text) => Ok(text@),
        Err(error) => Err(error@),
    }
}

/// The status of an entry with a `TryExec` key whose validation has the
/// verdict `try_exec`; `launch` is the verdict on its `Exec` line, if it has
/// one, and `failure` the status of an entry whose `TryExec` does not
/// resolve.
pub open spec fn try_exec_status(
    try_exec: Verdict,
    launch: Option<Verdict>,
    failure: StatusView,
) -> StatusView {
    match try_exec {
        Ok(Some(path)) => match launch {
            Some(verdict) => exec_status(verdict, true),
            None => StatusView::Healthy { resolved_executable: Some(path) },
        },
        _ => failure,
    }
}

/// How far an inspection has come.
enum Step {
    /// The file has not been read yet.
    Reading { desktop_file: String, path_env: String, include_hidden: bool, check_script_args: bool },
    /// The `TryExec` value is being resolved.
    TryExec {
        desktop_file: String,
        d: Descriptor,
        probing: Validation,
        launch: Option<Validation>,
        failure: Status,
    },
    /// The `Exec` line is being validated.
    Exec { desktop_file: String, d: Descriptor, probing: Validation, after_try_exec: bool },
    /// The finding is made.
    Finished { finding: Finding },
}

/// The inspection of one descriptor file, in progress.
///
/// It first asks for the file to be read ([`Inspection::read`]), then for
/// the answers to zero or more questions about the disk
/// ([`Inspection::answer`]), and ends with exactly one finding
/// ([`Inspection::into_finding`]). A file that cannot be read ends the
/// inspection with a broken finding, like any other defect.
pub struct Inspection {
    step: Step,
}

impl Inspection {
    /// A validation that is kept has a question pending.
    #[verifier::type_invariant]
    spec fn well_formed(self) -> bool {
        match self.step {
            Step::TryExec { probing, .. } => probing.question() is Some,
            Step::Exec { probing, .. } => probing.question() is Some,
            _ => true,
        }
    }

    /// What the caller has to supply next; `None` when the finding is made.
    pub closed spec fn request(self) -> Option<RequestView> {
        match self.step {
            Step::Reading { desktop_file, .. } => Some(RequestView::Read(desktop_file@)),
            Step::TryExec { probing, .. } => Some(RequestView::Probe(probing.question()->0)),
            Step::Exec { probing, .. } => Some(RequestView::Probe(probing.question()->0)),
            Step::Finished { .. } => None,
        }
    }

    /// The finding that this inspection ends with when reading the file
    /// gives `content` and the questions are answered from `fs`.
    pub closed spec fn finding(self, content: Result<Seq<char>, Seq<char>>, fs: FileSystem) -> FindingView {
        match self.step {
            Step::Reading { desktop_file, path_env, include_hidden, check_script_args } => inspection(
                desktop_file@,
                content,
                path_env@,
                include_hidden,
                check_script_args,
                fs,
            ),
            Step::TryExec { desktop_file, d, probing, launch, failure } => finding_of(
                desktop_file@,
                d@,
                try_exec_status(
                    probing.verdict(fs),
                    match launch {
                        Some(validation) => Some(validation.verdict(fs)),
                        None => None,
                    },
                    failure@,
                ),
            ),
            Step::Exec { desktop_file, d, probing, after_try_exec } => finding_of(
                desktop_file@,
                d@,
                exec_status(probing.verdict(fs), after_try_exec),
            ),
            Step::Finished { finding } => finding@,
        }
    }

    /// A bound on the number of questions about the disk that are still to
    /// come, once the file has been read.
    pub closed spec fn questions_left(self) -> nat {
        match self.step {
            Step::Reading { .. } => 0,
            Step::TryExec { probing, launch, .. } => probing.questions_left() + match launch {
                Some(validation) => validation.questions_left(),
                None => 0,
            },
            Step::Exec { probing, .. } => probing.questions_left(),
            Step::Finished { .. } => 0,
        }
    }

/// An inspection that has ended with `finding`.
    fn finished(finding: Finding) -> (r: Inspection)
        ensures
            r.request() is None,
            r.questions_left() == 0,
            forall|content: Result<Seq<char>, Seq<char>>, fs: FileSystem| #[trigger]
                r.finding(content, fs) == finding@,
    {
        Inspection { step: Step::Finished { finding } }
    }

    /// Goes on with the validation of the `Exec` line.
    fn with_exec(desktop_file: String, d: Descriptor, probing: Validation, after_try_exec: bool) -> (r:
        Inspection)
        ensures
            !(r.request() matches Some(RequestView::Read(_))),
            r.questions_left() <= probing.questions_left(),
            forall|content: Result<Seq<char>, Seq<char>>, fs: FileSystem| #[trigger]
                r.finding(content, fs) == finding_of(
                    desktop_file@,
                    d@,
                    exec_status(probing.verdict(fs), after_try_exec),
                ),
    {
        match probing.outcome() {
            Some(verdict) => Inspection::finished(
                make_finding(desktop_file, d, status_of_exec(verdict, after_try_exec)),
            ),
            None => Inspection { step: Step::Exec { desktop_file, d, probing, after_try_exec } },
        }
    }

    /// Goes on with the validation of the `TryExec` value.
    fn with_try_exec(
        desktop_file: String,
        d: Descriptor,
        probing: Validation,
        launch: Option<Validation>,
        failure: Status,
    ) -> (r: Inspection)
        ensures
            !(r.request() matches Some(RequestView::Read(_))),
            r.questions_left() <= probing.questions_left() + match launch {
                Some(validation) => validation.questions_left(),
                None => 0,
            },
            forall|content: Result<Seq<char>, Seq<char>>, fs: FileSystem| #[trigger]
                r.finding(content, fs) == finding_of(
                    desktop_file@,
                    d@,
                    try_exec_status(
                        probing.verdict(fs),
                        match launch {
                            Some(validation) => Some(validation.verdict(fs)),
                            None => None,
                        },
                        failure@,
                    ),
                ),
    {
        match probing.outcome() {
            Some(Ok(Some(path))) => match launch {
                Some(validation) => Inspection::with_exec(desktop_file, d, validation, true),
                None => Inspection::finished(
                    make_finding(
                        desktop_file,
                        d,
                        Status::Healthy { resolved_executable: Some(path) },
                    ),
                ),
            },
            Some(_) => Inspection::finished(make_finding(desktop_file, d, failure)),
            None => Inspection { step: Step::TryExec { desktop_file, d, probing, launch, failure } },
        }
    }

    /// What the caller has to supply next: the file, through
    /// [`Inspection::read`], or the answer to a question, through
    /// [`Inspection::answer`]. `None` when the finding is made.
    pub fn pending(&self) -> (r: Option<Request>)
        ensures
            match r {
                Some(request) => self.request() == Some(request@),
                None => self.request() is None,
            },
    {
        proof {
            use_type_invariant(self);
        }
        match &self.step {
            Step::Reading { desktop_file, .. } => Some(Request::Read(desktop_file.clone())),
            Step::TryExec { probing, .. } => match probing.pending() {
                Some(probe) => Some(Request::Probe(probe)),
                None => None,
            },
            Step::Exec { probing, .. } => match probing.pending() {
                Some(probe) => Some(Request::Probe(probe)),
                None => None,
            },
            Step::Finished { .. } => None,
        }
    }

    /// Takes what reading the file gave: its text, or the text of the
    /// error. An inspection that is not waiting for the file stays as it
    /// is.
    ///
    /// From here on the finding depends on the disk alone, and is the one
    /// that was to be expected for `content`.
    pub fn read(self, content: Result<String, String>) -> (r: Inspection)
        ensures
            self.request() matches Some(RequestView::Read(_)) ==> forall|
                any: Result<Seq<char>, Seq<char>>,
                fs: FileSystem,
            | #[trigger] r.finding(any, fs) == self.finding(content_of(content), fs),
            !(self.request() matches Some(RequestView::Read(_))) ==> r == self,
            !(r.request() matches Some(RequestView::Read(_))),
    {
        proof {
            use_type_invariant(&self);
        }
        match self.step {
            Step::Reading { desktop_file, path_env, include_hidden, check_script_args } => {
                let text = match content {
                    Ok(text) => text,
                    Err(error) => {
                        return Inspection::finished(
                            unreadable_finding(desktop_file, error.as_str()),
                        );
                    },
                };
                let d = read_descriptor(text.as_str());
                match settle_early(&d, include_hidden) {
                    Some(status) => {
                        return Inspection::finished(make_finding(desktop_file, d, status));
                    },
                    None => {},
                }
                let ctx = CheckContext {
                    path_env: path_env.as_str(),
                    path_key: match &d.path_key {
                        Some(dir) => Some(dir.as_str()),
                        None => None,
                    },
                    check_script_args,
                };
                let launch = match &d.exec_line {
                    Some(line) => Some(validate_exec(line.as_str(), &ctx)),
                    None => None,
                };
                let try_exec = match &d.try_exec {
                    Some(value) => Some(
                        (
                            validate_tryexec(value.as_str(), &ctx),
                            Status::Broken {
                                reason: joined("TryExec does not resolve: ", value.as_str()),
                            },
                        ),
                    ),
                    None => None,
                };
                match try_exec {
                    Some((probing, failure)) => Inspection::with_try_exec(
                        desktop_file,
                        d,
                        probing,
                        launch,
                        failure,
                    ),
                    None => match launch {
                        Some(probing) => Inspection::with_exec(desktop_file, d, probing, false),
                        None => vstd::pervasive::unreached(),
                    },
                }
            },
            other => Inspection { step: other },
        }
    }

    /// Takes the answer to the pending question about the disk. An
    /// inspection that has asked none stays as it is.
    ///
    /// In every file system of which `yes` is the true answer, the
    /// inspection still ends with the same finding, and it has come closer
    /// to it.
    pub fn answer(self, yes: bool) -> (r: Inspection)
        ensures
            self.request() matches Some(RequestView::Probe(probe)) ==> r.questions_left()
                < self.questions_left() && forall|
                content: Result<Seq<char>, Seq<char>>,
                fs: FileSystem,
            |
                fs.answer(probe) == yes ==> #[trigger] r.finding(content, fs) == self.finding(
                    content,
                    fs,
                ),
            !(self.request() matches Some(RequestView::Probe(_))) ==> r == self,
            self.request() matches Some(RequestView::Probe(_)) ==> !(r.request() matches Some(
                RequestView::Read(_),
            )),
    {
        proof {
            use_type_invariant(&self);
        }
        match self.step {
            Step::TryExec { desktop_file, d, probing, launch, failure } => Inspection::with_try_exec(
                desktop_file,
                d,
                probing.answer(yes),
                launch,
                failure,
            ),
            Step::Exec { desktop_file, d, probing, after_try_exec } => Inspection::with_exec(
                desktop_file,
                d,
                probing.answer(yes),
                after_try_exec,
            ),
            other => Inspection { step: other },
        }
    }

    /// The finding of a finished inspection; an unfinished one is handed
    /// back.
    pub fn into_finding(self) -> (r: Result<Finding, Inspection>)
        ensures
            match r {
                Ok(finding) => self.request() is None && forall|
                    content: Result<Seq<char>, Seq<char>>,
                    fs: FileSystem,
                | #[trigger] self.finding(content, fs) == finding@,
                Err(unfinished) => self.request() is Some && unfinished == self,
            },
    {
        proof {
            use_type_invariant(&self);
        }
        match self.step {
            Step::Finished { finding } => Ok(finding),
            other => Err(Inspection { step: other }),
        }
    }

    /// Runs the inspection to its end, with `content` for what reading the
    /// file gave and every question answered from `disk`. Every inspection
    /// comes to an end, and with the one finding that it had from the
    /// start.
    pub fn conclude(self, content: Result<String, String>, disk: &Snapshot) -> (r: Finding)
        ensures
            r@ == self.finding(content_of(content), disk@),
    {
        let mut inspection = self.read(content);
        loop
            invariant
                !(inspection.request() matches Some(RequestView::Read(_))),
                forall|any: Result<Seq<char>, Seq<char>>| #[trigger]
                    inspection.finding(any, disk@) == self.finding(content_of(content), disk@),
            decreases inspection.questions_left(),
        {
            inspection = match inspection.into_finding() {
                Ok(finding) => {
                    assert(inspection.finding(content_of(content), disk@) == finding@);
                    return finding;
                },
                Err(unfinished) => unfinished,
            };
            match inspection.pending() {
                Some(Request::Probe(probe)) => {
                    let yes = disk.answer(&probe);
                    inspection = inspection.answer(yes);
                },
                _ => {},
            }
        }
    }
}

/// Starts the inspection of the descriptor file at `path`.
///
/// `path_env` is the search path for bare commands. Of `args`, the
/// inspection reads whether hidden entries are included and whether script
/// arguments are checked. The inspection begins by asking for the file; its
/// finding is the one that [`inspection`] describes.
pub fn inspect_one(path: &str, path_env: &str, args: &Args) -> (r: Inspection)
    ensures
        r.request() == Some(RequestView::Read(path@)),
        forall|content: Result<Seq<char>, Seq<char>>, fs: FileSystem| #[trigger]
            r.finding(content, fs) == inspection(
                path@,
                content,
                path_env@,
                args.include_hidden,
                args.check_script_args,
                fs,
            ),
{
    Inspection {
        step: Step::Reading {
            desktop_file: String::from_str(path),
            path_env: String::from_str(path_env),
            include_hidden: args.include_hidden,
            check_script_args: args.check_script_args,
        },
    }
}

/// Every inspection ends with a finding on the file it was started for,
/// whatever reading the file gave and whatever the disk holds; a file that
/// cannot be read has a broken finding.
pub proof fn every_inspection_names_its_file(
    desktop_file: Seq<char>,
    content: Result<Seq<char>, Seq<char>>,
    path_env: Seq<char>,
    include_hidden: bool,
    check_script_args: bool,
    fs: FileSystem,
)
    ensures
        inspection(
            desktop_file,
            content,
            path_env,
            include_hidden,
            check_script_args,
            fs,
        ).desktop_file == desktop_file,
        content is Err ==> inspection(
            desktop_file,
            content,
            path_env,
            include_hidden,
            check_script_args,
            fs,
        ).status is Broken,
{
}

/// A hidden entry is skipped unless hidden entries are included, whatever
/// else it declares.
pub proof fn hidden_entries_are_skipped(d: DescriptorView, try_exec: Option<Seq<char>>, launch: Verdict)
    requires
        d.hidden || d.no_display,
    ensures
        status(d, false, try_exec, launch) is Skipped,
{
}

/// Where `TryExec` resolves and `Exec` is present, `Exec` decides: an `Exec`
/// line that does not resolve makes the entry broken although `TryExec`
/// resolved.
pub proof fn exec_decides_after_try_exec(
    d: DescriptorView,
    include_hidden: bool,
    found: Seq<char>,
    launch: Verdict,
)
    requires
        early_status(d, include_hidden) is None,
        d.try_exec is Some,
        d.exec_line is Some,
    ensures
        status(d, include_hidden, Some(found), launch) == exec_status(launch, true),
        launch == Ok::<Option<Seq<char>>, Seq<char>>(None) ==> status(
            d,
            include_hidden,
            Some(found),
            launch,
        ) == (StatusView::Broken { reason: "Exec does not resolve (even though TryExec does)"@ }),
{
}

/// Where `TryExec` does not resolve the entry is broken, whatever `Exec`
/// says.
pub proof fn unresolved_try_exec_is_final(d: DescriptorView, include_hidden: bool, launch: Verdict)
    requires
        early_status(d, include_hidden) is None,
        d.try_exec is Some,
    ensures
        status(d, include_hidden, None, launch) == (StatusView::Broken {
            reason: "TryExec does not resolve: "@ + d.try_exec->0,
        }),
{
}

/// Including hidden entries switches off the skip rule and nothing else: a
/// hidden entry then has the status that it would have if it were not
/// hidden, and its finding still says that it is hidden.
pub proof fn hidden_entries_can_be_included(
    desktop_file: Seq<char>,
    d: DescriptorView,
    try_exec: Option<Seq<char>>,
    launch: Verdict,
)
    ensures
        status(d, true, try_exec, launch) == status(
            DescriptorView { hidden: false, no_display: false, ..d },
            false,
            try_exec,
            launch,
        ),
        finding_of(desktop_file, d, status(d, true, try_exec, launch)).hidden == d.hidden,
        finding_of(desktop_file, d, status(d, true, try_exec, launch)).no_display == d.no_display,
{
}

/// A hidden entry that is included is checked like any other: where its
/// `Exec` line names an absolute path that is an executable file, the
/// finding is healthy with that path, and still says that the entry is
/// hidden. `tokens` are the shell words of the `Exec` line.
pub proof fn included_hidden_entry_is_checked(
    desktop_file: Seq<char>,
    content: Seq<char>,
    tokens: Seq<Seq<char>>,
    path_env: Seq<char>,
    fs: FileSystem,
)
    requires
        descriptor(content).hidden,
        descriptor(content).kind is None || descriptor(content).kind == Some("Application"@),
        descriptor(content).try_exec is None,
        descriptor(content).exec_line is Some,
        executable_token(tokens) is Some,
        is_absolute(executable_token(tokens)->0),
        fs.executables.contains(executable_token(tokens)->0),
    ensures
        finding_for(desktop_file, content, Some(tokens), path_env, true, false, fs).status == (
        StatusView::Healthy { resolved_executable: executable_token(tokens) }),
        finding_for(desktop_file, content, Some(tokens), path_env, true, false, fs).hidden,
        finding_for(desktop_file, content, Some(tokens), path_env, false, false, fs).status
            is Skipped,
{
    let d = descriptor(content);
    let path = executable_token(tokens)->0;
    assert(path[0] == '/');
    absolute_path_resolves_to_itself(path, path_env, d.path_key, fs);
}

/// An entry whose `TryExec` resolves and whose `Exec` line names an
/// absolute path that is no executable file is broken, and the reason says
/// that `TryExec` did resolve. `tokens` are the shell words of the `Exec`
/// line.
pub proof fn unresolved_exec_breaks_a_resolved_try_exec(
    desktop_file: Seq<char>,
    content: Seq<char>,
    tokens: Seq<Seq<char>>,
    path_env: Seq<char>,
    include_hidden: bool,
    check_script_args: bool,
    fs: FileSystem,
)
    requires
        early_status(descriptor(content), include_hidden) is None,
        descriptor(content).try_exec is Some,
        is_absolute(descriptor(content).try_exec->0),
        fs.executables.contains(descriptor(content).try_exec->0),
        descriptor(content).exec_line is Some,
        executable_token(tokens) is Some,
        is_absolute(executable_token(tokens)->0),
        !fs.executables.contains(executable_token(tokens)->0),
    ensures
        finding_for(
            desktop_file,
            content,
            Some(tokens),
            path_env,
            include_hidden,
            check_script_args,
            fs,
        ).status == (StatusView::Broken {
            reason: "Exec does not resolve (even though TryExec does)"@,
        }),
{
    let d = descriptor(content);
    let path = executable_token(tokens)->0;
    assert(path[0] == '/');
    absolute_path_resolves_to_itself(path, path_env, d.path_key, fs);
    absolute_path_resolves_to_itself(d.try_exec->0, path_env, d.path_key, fs);
}

} // verus!
