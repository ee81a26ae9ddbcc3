//! The course of one upload: what to do after each outcome of reading the file, sending it,
//! writing the report and sharing the summary.
//!
//! A payload that could not be sent is sent again, up to [`MAX_ATTEMPTS`] times in all. An answer
//! of any status ends the sending.
use crate::canonical::canonical_text;
use crate::cli::{opt_text, Config, ConfigView, Mode};
use crate::codec::{parsed_bytes, parsed_text};
use crate::feedback::{check_feedback, follow_up, share, FollowUp, ReportFile};
use crate::forward::{
    outgoing, succeeded, unsent, upload, upload_request, verdict_of, ForwardResult, Request,
    RequestView,
};
use crate::json::JsonView;
use crate::paths::is_report_path;
use crate::redact::redacted;
use crate::report::{body_or_empty, is_stamp, page, summary, summary_lines};
use crate::text::texts;
use vstd::prelude::*;
use vstd::utf8::encode_utf8;

verus! {

/// How often a payload is sent before its upload is given up.
pub const MAX_ATTEMPTS: u32 = 3;

/// A file that is to be uploaded.
#[derive(Debug)]
pub struct Job {
    /// How the file is named in messages, reports and summaries.
    pub source: String,
    /// What stands for the file in the name of its report, if it is one of several files.
    pub stem: Option<String>,
}

/// What to do next.
#[derive(Debug)]
pub enum Step {
    /// Send the payload, for the first time or again; attempts are counted from one.
    Send(Request, u32),
    /// Write the report; what to share comes after that.
    Write(ReportFile, Option<Request>),
    /// Share the summary.
    Share(Request),
    /// End the run with an error.
    Fail(String),
    /// Nothing is left to do for this file.
    Done,
}

/// What to show and what to do next.
#[derive(Debug)]
pub struct Move {
    /// Lines for the standard output.
    pub out: Vec<String>,
    /// Lines for the standard error.
    pub err: Vec<String>,
    pub step: Step,
}

impl Move {
    /// Nothing is shown.
    pub open spec fn is_silent(self) -> bool {
        texts(self.out@) == Seq::<Seq<char>>::empty() && texts(self.err@)
            == Seq::<Seq<char>>::empty()
    }

    /// The payload is sent, as the `attempt`-th attempt.
    pub open spec fn sends(self, request: RequestView, attempt: u32) -> bool {
        &&& self.is_silent()
        &&& self.step is Send
        &&& self.step->Send_0@ == request
        &&& self.step->Send_1 == attempt
    }

    /// What follows the `attempt`-th attempt to send a payload. An answer is summed up, and what
    /// the verdict calls for is done next. Without one the payload is sent again, until all
    /// attempts have failed.
    pub open spec fn follows_sending(
        self,
        job: Job,
        config: ConfigView,
        request: RequestView,
        attempt: u32,
        outcome: Result<ForwardResult, String>,
    ) -> bool {
        match outcome {
            Ok(result) => {
                &&& texts(self.out@) == summary(
                    job.source@,
                    result.status,
                    body_or_empty(parsed_text(result.body@)),
                )
                &&& texts(self.err@) == Seq::<Seq<char>>::empty()
                &&& exists|follow: FollowUp| #[trigger]
                    follow.follows(
                        config,
                        job.source@,
                        verdict_of(parsed_text(result.body@), result.body@),
                        opt_text(job.stem),
                    ) && self.step == step_for(follow)
            },
            Err(words) => if attempt < MAX_ATTEMPTS {
                self.sends(request, (attempt + 1) as u32)
            } else {
                self.gives_up(job, "send: "@ + words@, failure_line(job, "send: "@ + words@))
            },
        }
    }

    /// The end of the upload of a file that could not be sent. Where it is the only file, the
    /// run fails with `error`; where it is one of several, `line` is shown and the others go on.
    pub open spec fn gives_up(self, job: Job, error: Seq<char>, line: Seq<char>) -> bool {
        &&& texts(self.out@) == Seq::<Seq<char>>::empty()
        &&& if job.stem is Some {
            texts(self.err@) == seq![line] && self.step == Step::Done
        } else {
            &&& texts(self.err@) == Seq::<Seq<char>>::empty()
            &&& self.step is Fail
            &&& self.step->Fail_0@ == error
        }
    }

    /// The end of an upload whose report could not be written or whose summary could not be
    /// shared: that is shown and does not fail the run.
    pub open spec fn puts_up_with(self, job: Job, trouble: Seq<char>) -> bool {
        &&& texts(self.out@) == Seq::<Seq<char>>::empty()
        &&& texts(self.err@) == seq![trouble_line(job, trouble)]
        &&& self.step == Step::Done
    }
}

/// The line on a report that could not be written or a summary that could not be shared.
pub open spec fn trouble_line(job: Job, trouble: Seq<char>) -> Seq<char> {
    if job.stem is Some {
        "  (postprocessing for "@ + job.source@ + ": "@ + trouble + ")"@
    } else {
        "  (postprocessing: "@ + trouble + ")"@
    }
}

/// The line on a file that could not be sent.
pub open spec fn failure_line(job: Job, error: Seq<char>) -> Seq<char> {
    "  ✗ "@ + job.source@ + ": "@ + error
}

/// What follows where `feedback` is all that may be left to do.
pub open spec fn sharing_step(feedback: Option<Request>) -> Step {
    match feedback {
        Some(request) => Step::Share(request),
        None => Step::Done,
    }
}

/// What follows once it is settled what a verdict calls for.
pub open spec fn step_for(follow: FollowUp) -> Step {
    match follow.report {
        Some(report) => Step::Write(report, follow.feedback),
        None => sharing_step(follow.feedback),
    }
}

fn one_line(line: String) -> (r: Vec<String>)
    ensures
        texts(r@) == seq![line@],
        r@.len() == 1,
        r@[0]@ == line@,
{
    let mut lines: Vec<String> = Vec::new();
    lines.push(line);
    assert(texts(lines@) =~= seq![line@]);
    lines
}

fn no_lines() -> (r: Vec<String>)
    ensures
        texts(r@) == Seq::<Seq<char>>::empty(),
        r@.len() == 0,
{
    let lines: Vec<String> = Vec::new();
    assert(texts(lines@) =~= Seq::<Seq<char>>::empty());
    lines
}

impl Job {
    fn give_up(&self, error: String) -> (r: Move)
        ensures
            r.gives_up(*self, error@, failure_line(*self, error@)),
    {
        if self.stem.is_some() {
            let mut line = "  ✗ ".to_owned();
            line.append(self.source.as_str());
            line.append(": ");
            line.append(error.as_str());
            Move { out: no_lines(), err: one_line(line), step: Step::Done }
        } else {
            Move { out: no_lines(), err: no_lines(), step: Step::Fail(error) }
        }
    }

    fn put_up_with(&self, trouble: &str) -> (r: Move)
        ensures
            r.puts_up_with(*self, trouble@),
    {
        let mut line = if self.stem.is_some() {
            let mut line = "  (postprocessing for ".to_owned();
            line.append(self.source.as_str());
            line.append(": ");
            line
        } else {
            "  (postprocessing: ".to_owned()
        };
        line.append(trouble);
        line.append(")");
        Move { out: no_lines(), err: one_line(line), step: Step::Done }
    }

    /// What to do once the file has been read, or could not be; an error is given in words.
    pub fn after_reading(&self, config: &Config, outcome: Result<Vec<u8>, String>) -> (r: Move)
        ensures
            match outcome {
                Ok(bytes) => match outgoing(config@, bytes@) {
                    Ok(sent) => r.sends(upload(config@, sent), 1),
                    Err(words) => {
                        let error = "parse OTLP JSON: "@ + words;
                        r.gives_up(*self, error, failure_line(*self, error))
                    },
                },
                Err(words) => r.gives_up(
                    *self,
                    "read "@ + self.source@ + ": "@ + words@,
                    failure_line(*self, "read error: "@ + words@),
                ),
            },
            self.stem is Some ==> !(r.step is Fail),
            outcome is Ok && config.mode == Mode::Plain ==> r.step is Send,
            outcome is Ok && config.mode == Mode::Hash ==> (r.step is Send <==> parsed_bytes(
                outcome->Ok_0@,
            ) is Ok),
            outcome is Err ==> !(r.step is Send),
            r.step matches Step::Send(request, attempt) ==> {
                &&& attempt == 1
                &&& config.mode == Mode::Plain ==> request.body@ == outcome->Ok_0@
                &&& config.mode == Mode::Hash ==> request.body@ == encode_utf8(
                    canonical_text(redacted(parsed_bytes(outcome->Ok_0@)->Ok_0, config.salt@)),
                )
            },
    {
        match outcome {
            Ok(bytes) => match upload_request(config, bytes) {
                Ok(request) => Move {
                    out: no_lines(),
                    err: no_lines(),
                    step: Step::Send(request, 1),
                },
                Err(e) => self.give_up(e.message()),
            },
            Err(words) => {
                if self.stem.is_some() {
                    let mut error = "read error: ".to_owned();
                    error.append(words.as_str());
                    self.give_up(error)
                } else {
                    let mut error = "read ".to_owned();
                    error.append(self.source.as_str());
                    error.append(": ");
                    error.append(words.as_str());
                    self.give_up(error)
                }
            },
        }
    }

    /// What to do once the `attempt`-th attempt to send `request` has been answered, or has
    /// failed.
    pub fn after_sending(
        &self,
        config: &Config,
        request: Request,
        attempt: u32,
        outcome: Result<ForwardResult, String>,
    ) -> (r: Move)
        ensures
            r.follows_sending(*self, config@, request@, attempt, outcome),
            outcome is Ok || attempt < MAX_ATTEMPTS || self.stem is Some ==> !(r.step is Fail),
            outcome is Err && attempt < 3 ==> r.out@.len() == 0 && r.err@.len() == 0 && r.step
                is Send && r.step->Send_0@ == request@ && r.step->Send_1 == attempt + 1,
            outcome is Ok ==> {
                &&& r.step is Write <==> config.report is Some
                &&& r.step is Share <==> config.report is None && config.feedback
                &&& r.step is Done <==> config.report is None && !config.feedback
                &&& r.err@.len() == 0
                &&& texts(r.out@) == summary(
                    self.source@,
                    outcome->Ok_0.status,
                    body_or_empty(parsed_text(outcome->Ok_0.body@)),
                )
            },
            r.step matches Step::Write(report, feedback) ==> {
                &&& feedback is Some <==> config.feedback
                &&& self.stem is None ==> report.path@ == config.report->0@
                &&& self.stem is Some ==> is_report_path(
                    config.report->0@,
                    Some(self.stem->0@),
                    report.path@,
                )
                &&& exists|now: Seq<char>| #[trigger]
                    is_stamp(now) && report.html@ == page(
                        self.source@,
                        verdict_of(parsed_text(outcome->Ok_0.body@), outcome->Ok_0.body@),
                        config.binary_version@,
                        now,
                        verdict_of(
                            parsed_text(outcome->Ok_0.body@),
                            outcome->Ok_0.body@,
                        ).sorted().pretty(),
                    )
                &&& feedback matches Some(shared) ==> shared@ == share(
                    config@,
                    self.source@,
                    verdict_of(parsed_text(outcome->Ok_0.body@), outcome->Ok_0.body@),
                )
            },
            r.step matches Step::Share(shared) ==> shared@ == share(
                config@,
                self.source@,
                verdict_of(parsed_text(outcome->Ok_0.body@), outcome->Ok_0.body@),
            ),
    {
        match outcome {
            Ok(result) => {
                let out = summary_lines(self.source.as_str(), &result);
                let stem = match &self.stem {
                    Some(s) => Some(s.as_str()),
                    None => None,
                };
                let follow = follow_up(config, self.source.as_str(), &result, stem);
                let ghost chosen = follow;
                assert(chosen.follows(
                    config@,
                    self.source@,
                    verdict_of(parsed_text(result.body@), result.body@),
                    opt_text(self.stem),
                ));
                let step = match follow.report {
                    Some(report) => Step::Write(report, follow.feedback),
                    None => match follow.feedback {
                        Some(request) => Step::Share(request),
                        None => Step::Done,
                    },
                };
                assert(step == step_for(chosen));
                Move { out, err: no_lines(), step }
            },
            Err(words) => {
                if attempt < MAX_ATTEMPTS {
                    Move {
                        out: no_lines(),
                        err: no_lines(),
                        step: Step::Send(request, attempt + 1),
                    }
                } else {
                    self.give_up(unsent(words.as_str()))
                }
            },
        }
    }

    /// What to do once the report has been written to `path`, or could not be.
    pub fn after_writing(
        &self,
        path: &str,
        feedback: Option<Request>,
        outcome: Result<(), String>,
    ) -> (r: Move)
        ensures
            match outcome {
                Ok(_) => {
                    &&& texts(r.out@) == seq!["  report written: "@ + path@]
                    &&& texts(r.err@) == Seq::<Seq<char>>::empty()
                    &&& r.step == sharing_step(feedback)
                },
                Err(words) => r.puts_up_with(*self, "write "@ + path@ + ": "@ + words@),
            },
            !(r.step is Fail),
            outcome is Ok && feedback is Some ==> r.step == Step::Share(feedback->0),
            outcome is Err || feedback is None ==> r.step is Done,
    {
        match outcome {
            Ok(_) => {
                let mut line = "  report written: ".to_owned();
                line.append(path);
                let step = match feedback {
                    Some(request) => Step::Share(request),
                    None => Step::Done,
                };
                Move { out: one_line(line), err: no_lines(), step }
            },
            Err(words) => {
                let mut trouble = "write ".to_owned();
                trouble.append(path);
                trouble.append(": ");
                trouble.append(words.as_str());
                self.put_up_with(trouble.as_str())
            },
        }
    }

    /// What to do once the summary has been answered, with a status and how it reads, or could
    /// not be sent.
    pub fn after_sharing(&self, outcome: Result<(u16, String), String>) -> (r: Move)
        ensures
            match outcome {
                Ok((status, shown)) => if succeeded(status) {
                    r.is_silent() && r.step == Step::Done
                } else {
                    r.puts_up_with(*self, "feedback POST returned "@ + shown@)
                },
                Err(words) => r.puts_up_with(*self, "feedback POST: "@ + words@),
            },
            !(r.step is Fail),
            r.step is Done,
            outcome matches Ok((status, _)) ==> (texts(r.err@).len() == 0 <==> 200 <= status
                < 300),
    {
        match outcome {
            Ok((status, shown)) => match check_feedback(status, shown.as_str()) {
                Ok(_) => Move { out: no_lines(), err: no_lines(), step: Step::Done },
                Err(trouble) => self.put_up_with(trouble.as_str()),
            },
            Err(words) => {
                let mut trouble = "feedback POST: ".to_owned();
                trouble.append(words.as_str());
                self.put_up_with(trouble.as_str())
            },
        }
    }
}

/// A series of attempts to send a payload, with their outcomes and what followed each: every
/// attempt but the first is made because the one before it asked for it.
pub open spec fn is_sending(
    job: Job,
    config: ConfigView,
    request: RequestView,
    outcomes: Seq<Result<ForwardResult, String>>,
    moves: Seq<Move>,
) -> bool {
    &&& outcomes.len() > 0
    &&& moves.len() == outcomes.len()
    &&& forall|i: int|
        0 <= i < moves.len() ==> (#[trigger] moves[i]).follows_sending(
            job,
            config,
            request,
            (i + 1) as u32,
            outcomes[i],
        )
    &&& forall|i: int| 0 <= i < moves.len() - 1 ==> (#[trigger] moves[i]).step is Send
}

/// An upload is tried again on failure: only a failed attempt is followed by another, which sends
/// the same payload; an upload whose later attempt is answered does not fail; and an upload is
/// given up only after [`MAX_ATTEMPTS`] failures, beyond which nothing is sent.
pub proof fn law_failed_attempts_are_repeated(
    job: Job,
    config: ConfigView,
    request: RequestView,
    outcomes: Seq<Result<ForwardResult, String>>,
    moves: Seq<Move>,
)
    requires
        is_sending(job, config, request, outcomes, moves),
    ensures
        outcomes.len() <= MAX_ATTEMPTS,
        MAX_ATTEMPTS > 1,
        forall|i: int| 0 <= i < moves.len() - 1 ==> (#[trigger] outcomes[i]) is Err,
        forall|i: int|
            0 <= i < moves.len() - 1 ==> (#[trigger] moves[i]).sends(request, (i + 2) as u32),
        outcomes.last() is Ok ==> !(moves.last().step is Fail) && !(moves.last().step is Send),
        outcomes.last() is Err && outcomes.len() < MAX_ATTEMPTS ==> moves.last().sends(
            request,
            (outcomes.len() + 1) as u32,
        ),
        outcomes.last() is Err && outcomes.len() == MAX_ATTEMPTS ==> !(moves.last().step is Send),
{
    let n = moves.len() as int;
    let most = MAX_ATTEMPTS as int;
    if n > most {
        assert(moves[most - 1].follows_sending(
            job,
            config,
            request,
            MAX_ATTEMPTS,
            outcomes[most - 1],
        ));
        assert(moves[most - 1].step is Send);
    }
    assert(moves[n - 1].follows_sending(job, config, request, n as u32, outcomes[n - 1]));
    assert forall|i: int| 0 <= i < n - 1 implies (#[trigger] outcomes[i]) is Err by {
        assert(moves[i].step is Send);
    }
    assert forall|i: int| 0 <= i < n - 1 implies (#[trigger] moves[i]).sends(
        request,
        (i + 2) as u32,
    ) by {
        assert(outcomes[i] is Err);
    }
}

/// A report is written exactly where a path for reports is set, and a summary is sent only where
/// summaries are shared.
pub proof fn law_nothing_is_done_unasked(
    follow: FollowUp,
    config: ConfigView,
    source: Seq<char>,
    verdict: JsonView,
    file_stem: Option<Seq<char>>,
)
    requires
        follow.follows(config, source, verdict, file_stem),
    ensures
        step_for(follow) is Write <==> config.report is Some,
        step_for(follow) matches Step::Write(_, feedback) ==> (feedback is Some
            <==> config.feedback),
        step_for(follow) is Share <==> config.report is None && config.feedback,
        step_for(follow) is Done <==> config.report is None && !config.feedback,
{
}

/// Where a file could not be sent, the reason is told in full, whatever it is. Where it is the
/// only file, the run fails with it and shows nothing else; where it is one of several, one line
/// names the file and the reason, and the run goes on.
pub proof fn law_failures_are_told_in_full(m: Move, job: Job, error: Seq<char>)
    requires
        m.gives_up(job, error, failure_line(job, error)),
    ensures
        m.out@.len() == 0,
        job.stem is None ==> m.err@.len() == 0 && m.step is Fail && m.step->Fail_0@ == error,
        job.stem is Some ==> m.err@.len() == 1 && m.step is Done && m.err@[0]@ == "  ✗ "@
            + job.source@ + ": "@ + error,
{
    assert(m.out@.len() == texts(m.out@).len());
    assert(m.err@.len() == texts(m.err@).len());
    if job.stem is Some {
        assert(texts(m.err@)[0] == m.err@[0]@);
    }
}

/// Where a report could not be written or a summary not be shared, one line tells the trouble in
/// full, and names the file where it is one of several; the run goes on.
pub proof fn law_troubles_are_told_in_full(m: Move, job: Job, trouble: Seq<char>)
    requires
        m.puts_up_with(job, trouble),
    ensures
        m.out@.len() == 0,
        m.step is Done,
        m.err@.len() == 1,
        job.stem is None ==> m.err@[0]@ == "  (postprocessing: "@ + trouble + ")"@,
        job.stem is Some ==> m.err@[0]@ == "  (postprocessing for "@ + job.source@ + ": "@
            + trouble + ")"@,
{
    assert(m.out@.len() == texts(m.out@).len());
    assert(m.err@.len() == texts(m.err@).len());
    assert(texts(m.err@)[0] == m.err@[0]@);
}

/// A payload that is read is sent as its first attempt: in plain mode byte for byte, and in hash
/// mode in canonical form with its content digested, with nothing shown before.
pub proof fn law_what_is_sent_first(m: Move, config: ConfigView, bytes: Seq<u8>)
    requires
        config.mode == Mode::Plain || parsed_bytes(bytes) is Ok,
        outgoing(config, bytes) matches Ok(sent) ==> m.sends(upload(config, sent), 1),
    ensures
        m.out@.len() == 0,
        m.err@.len() == 0,
        m.step is Send,
        m.step->Send_1 == 1,
        config.mode == Mode::Plain ==> m.step->Send_0.body@ == bytes,
        config.mode == Mode::Hash ==> m.step->Send_0.body@ == encode_utf8(
            canonical_text(redacted(parsed_bytes(bytes)->Ok_0, config.salt)),
        ),
{
    assert(m.out@.len() == texts(m.out@).len());
    assert(m.err@.len() == texts(m.err@).len());
}

} // verus!
