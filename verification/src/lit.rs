//! A tester that looks, in what a command wrote, for expected pieces in order.
//!
//! Running the command is the caller's part. What came of the run is handed
//! in as a `CommandOutcome`; what is decided here is whether the run passes,
//! and what is reported where it does not.
use vstd::prelude::*;
use vstd::string::*;
use vstd::utf8::*;
use crate::matching::{
    first_occurrence, first_occurs_at, lemma_first_byte_match_is_first_text_match,
    lemma_first_occurrence_exists, lemma_first_occurrence_is,
    lemma_no_byte_match_is_no_text_match, lemma_stand_in_order_in_longer, occurs, occurs_at,
    rest_after, stand_in_order,
};
use crate::text::{append_signed_decimal, signed_decimal};

verus! {

/// A command to run, and the pieces to look for, in order, in what it writes.
pub struct LitTester {
    pub cmd: String,
    pub args: Vec<String>,
    pub checks: Vec<String>,
}

/// Why a `LitTester` could not be built.
#[derive(Debug)]
#[non_exhaustive]
pub enum LitTesterBuilderError {
    /// A field without a default was never set; holds the field's name.
    UninitializedField(&'static str),
}

/// Collects the parts of a `LitTester`. The command has to be set; the
/// arguments and the checks are empty where they are not.
pub struct LitTesterBuilder {
    cmd: Option<String>,
    args: Option<Vec<String>>,
    checks: Option<Vec<String>>,
}

/// A test is written down as a builder: the command, its arguments, the checks.
pub type LitTest = LitTesterBuilder;

/// The reports of a run that failed.
pub type LitError = Vec<String>;

/// What a builder holds.
pub struct LitTesterBuilderView {
    pub cmd: Option<Seq<char>>,
    pub args: Option<Seq<Seq<char>>>,
    pub checks: Option<Seq<Seq<char>>>,
}

impl View for LitTesterBuilder {
    type V = LitTesterBuilderView;

    closed spec fn view(&self) -> LitTesterBuilderView {
        LitTesterBuilderView {
            cmd: match self.cmd {
                Some(cmd) => Some(cmd@),
                None => None,
            },
            args: match self.args {
                Some(args) => Some(args.deep_view()),
                None => None,
            },
            checks: match self.checks {
                Some(checks) => Some(checks.deep_view()),
                None => None,
            },
        }
    }
}

/// What came of running a command.
pub enum CommandOutcome {
    /// The command ran and ended: whether it reports success, its exit code
    /// if it has one, and what it wrote to its standard output.
    Exited { success: bool, code: Option<i32>, stdout: Vec<u8> },
    /// The command could not be run; holds the system's error, as text.
    NotRun { os_error: String },
}

/// `str::find` with a string as its pattern: the byte index at which the
/// first match of `needle` in `hay` begins, or `None` where there is no match.
/// A match lies within `hay`, whose length in bytes is a `usize`.
#[verifier::external_body]
fn find(hay: &str, needle: &str) -> (found: Option<usize>)
    ensures
        match found {
            Some(pos) => first_occurs_at(hay.spec_bytes(), needle.spec_bytes(), pos as int) && pos
                + needle.spec_bytes().len() <= usize::MAX,
            None => !occurs(hay.spec_bytes(), needle.spec_bytes()),
        },
{
    hay.find(needle)
}

/// What `Debug` prints for the error that `std::str::from_utf8` gives on
/// `bytes`, where they are no UTF-8.
pub uninterp spec fn utf8_error_text(bytes: Seq<u8>) -> Seq<char>;

/// `std::str::from_utf8`: the text that `bytes` are, where they are UTF-8;
/// the error, as `Debug` prints it, where they are not.
#[verifier::external_body]
fn from_utf8(bytes: &[u8]) -> (decoded: Result<&str, String>)
    ensures
        match decoded {
            Ok(text) => valid_utf8(bytes@) && text.spec_bytes() == bytes@,
            Err(report) => !valid_utf8(bytes@) && report@ == utf8_error_text(bytes@),
        },
{
    match std::str::from_utf8(bytes) {
        Ok(text) => Ok(text),
        Err(err) => Err(format!("{:?}", err)),
    }
}

/// `derive_builder::UninitializedFieldError`, the error for a field that was
/// never set: made with `new` for the field `field_name`, it gives that name
/// back from `field_name`.
#[verifier::external_body]
fn uninitialized_field(field_name: &'static str) -> (name: &'static str)
    ensures
        name@ == field_name@,
{
    derive_builder::UninitializedFieldError::new(field_name).field_name()
}

impl LitTesterBuilder {
    fn create_empty() -> (builder: Self)
        ensures
            builder@ == (LitTesterBuilderView { cmd: None, args: None, checks: None }),
    {
        Self { cmd: None, args: None, checks: None }
    }

    /// Sets the command, to what `into` makes of `value`.
    pub fn cmd<VALUE: Into<String>>(&mut self, value: VALUE) -> (new: &mut Self)
        ensures
            exists|text: String|
                call_ensures(<VALUE as Into<String>>::into, (value,), text) && new@ == (
                LitTesterBuilderView { cmd: Some(text@), ..old(self)@ }),
            *final(self) == *final(new),
    {
        let mut new = self;
        new.cmd = Some(value.into());
        new
    }

    /// Sets the arguments.
    pub fn args(&mut self, value: Vec<String>) -> (new: &mut Self)
        ensures
            new@ == (LitTesterBuilderView { args: Some(value.deep_view()), ..old(self)@ }),
            *final(self) == *final(new),
    {
        let mut new = self;
        new.args = Some(value);
        new
    }

    /// Sets the checks.
    pub fn checks(&mut self, value: Vec<String>) -> (new: &mut Self)
        ensures
            new@ == (LitTesterBuilderView { checks: Some(value.deep_view()), ..old(self)@ }),
            *final(self) == *final(new),
    {
        let mut new = self;
        new.checks = Some(value);
        new
    }

    /// The tester that the builder describes. It fails where the command was
    /// never set, and only there.
    pub fn build(&self) -> (result: Result<LitTester, LitTesterBuilderError>)
        ensures
            match result {
                Ok(tester) => {
                    &&& self@.cmd == Some(tester.cmd@)
                    &&& tester.args.deep_view() == match self@.args {
                        Some(args) => args,
                        None => Seq::empty(),
                    }
                    &&& tester.checks.deep_view() == match self@.checks {
                        Some(checks) => checks,
                        None => Seq::empty(),
                    }
                },
                Err(err) => {
                    &&& self@.cmd is None
                    &&& err matches LitTesterBuilderError::UninitializedField(name)
                    &&& name@ == "cmd"@
                },
            },
    {
        let cmd = match &self.cmd {
            Some(value) => value.clone(),
            None => {
                return Err(LitTesterBuilderError::UninitializedField(uninitialized_field("cmd")));
            },
        };
        let args = match &self.args {
            Some(value) => value.clone(),
            None => Vec::new(),
        };
        let checks = match &self.checks {
            Some(value) => value.clone(),
            None => Vec::new(),
        };
        proof {
            if let Some(value) = &self.args {
                assert(args.deep_view() =~= value.deep_view());
            } else {
                assert(args.deep_view() =~= Seq::<Seq<char>>::empty());
            }
            if let Some(value) = &self.checks {
                assert(checks.deep_view() =~= value.deep_view());
            } else {
                assert(checks.deep_view() =~= Seq::<Seq<char>>::empty());
            }
        }
        Ok(LitTester { cmd, args, checks })
    }

    /// Builds the tester and judges a run with the given outcome: nothing
    /// where it passes, and where it fails what is to be shown of it. The
    /// command has to be set.
    pub fn test(&self, outcome: CommandOutcome) -> (result: Result<(), String>)
        requires
            self@.cmd is Some,
        ensures
            ({
                let checks = match self@.checks {
                    Some(checks) => checks,
                    None => Seq::empty(),
                };
                match result {
                    Ok(_) => run_verdict(checks, outcome) is Ok,
                    Err(report) => run_verdict(checks, outcome) matches Err(msgs) && report@
                        == failure_report(msgs),
                }
            }),
    {
        match self.build() {
            Ok(tester) => tester.test(outcome),
            Err(_) => unreached(),
        }
    }
}

impl Default for LitTesterBuilder {
    fn default() -> (builder: Self)
        ensures
            builder@ == (LitTesterBuilderView { cmd: None, args: None, checks: None }),
    {
        Self::create_empty()
    }
}

/// What is reported of a piece that was looked for and not found.
pub open spec fn failure_message(check: Seq<char>) -> Seq<char> {
    "failed to find check string: "@ + check
}

/// The reports of the pieces of `checks` that are not found in `output`. Each
/// piece is looked for behind the place where the last one before it was
/// found; a piece that is not found leaves that place where it was.
pub open spec fn failures(checks: Seq<Seq<char>>, output: Seq<char>) -> Seq<Seq<char>>
    decreases checks.len(),
{
    if checks.len() == 0 {
        Seq::empty()
    } else {
        match rest_after(output, checks[0]) {
            Some(rest) => failures(checks.drop_first(), rest),
            None => seq![failure_message(checks[0])] + failures(checks.drop_first(), output),
        }
    }
}

/// Nothing is reported exactly where the pieces stand in the output in order,
/// each behind the end of the one before it: to take each piece at its first
/// place misses no such row of places.
pub proof fn lemma_no_failures_iff_in_order(checks: Seq<Seq<char>>, output: Seq<char>)
    ensures
        failures(checks, output).len() == 0 <==> stand_in_order(checks, output),
    decreases checks.len(),
{
    if checks.len() > 0 {
        let rest = checks.drop_first();
        let len = checks[0].len();
        if stand_in_order(checks, output) {
            let pos = choose|pos: int|
                #[trigger] occurs_at(output, checks[0], pos) && stand_in_order(
                    rest,
                    output.skip(pos + len),
                );
            let first = lemma_first_occurrence_exists(output, checks[0], pos);
            assert(output.skip(first + len).skip(pos - first) =~= output.skip(pos + len));
            lemma_stand_in_order_in_longer(rest, output.skip(first + len), pos - first);
            lemma_no_failures_iff_in_order(rest, output.skip(first + len));
        }
        if failures(checks, output).len() == 0 {
            match first_occurrence(output, checks[0]) {
                Some(first) => {
                    let pos = choose|pos: int| occurs_at(output, checks[0], pos);
                    lemma_first_occurrence_exists(output, checks[0], pos);
                    lemma_no_failures_iff_in_order(rest, output.skip(first + len));
                },
                None => {},
            }
        }
    }
}

/// Looks for `check_str` in `output`. Where it stands there, the result is
/// what follows its first place; where it does not, the report of that.
pub fn apply_check<'a>(check_str: &str, output: &'a str) -> (result: Result<&'a str, String>)
    ensures
        match result {
            Ok(rest) => rest_after(output@, check_str@) == Some(rest@),
            Err(msg) => rest_after(output@, check_str@) is None && msg@ == failure_message(
                check_str@,
            ),
        },
{
    if let Some(pos) = find(output, check_str) {
        proof {
            let at = lemma_first_byte_match_is_first_text_match(output@, check_str@, pos as int);
            lemma_first_occurrence_is(output@, check_str@, at);
        }
        let rest = output.split_at(pos + check_str.len()).1;
        proof {
            encode_utf8_decode_utf8(rest@);
        }
        Ok(rest)
    } else {
        proof {
            lemma_no_byte_match_is_no_text_match(output@, check_str@);
        }
        let mut msg = String::new();
        msg.append("failed to find check string: ");
        msg.append(check_str);
        assert(msg@ =~= failure_message(check_str@));
        Err(msg)
    }
}

/// Looks for each of `checks` in `stdout`, in order, and adds to `errs` the
/// report of each that is not found.
pub fn rec_check_output(checks: &[String], stdout: &str, errs: &mut Vec<String>)
    ensures
        final(errs).deep_view() == old(errs).deep_view() + failures(checks.deep_view(), stdout@),
    decreases checks.len(),
{
    if checks.len() > 0 {
        let (first, rest_checks) = checks.split_at(1);
        let first_check = &first[0];
        assert(rest_checks.deep_view() =~= checks.deep_view().drop_first());
        assert(first_check@ == checks.deep_view()[0]);
        match apply_check(first_check.as_str(), stdout) {
            Ok(rest) => rec_check_output(rest_checks, rest, errs),
            Err(msg) => {
                let ghost reported = errs.deep_view().push(msg@);
                errs.push(msg);
                assert(errs.deep_view() =~= reported);
                rec_check_output(rest_checks, stdout, errs);
            },
        }
        assert(errs.deep_view() =~= old(errs).deep_view() + failures(
            checks.deep_view(),
            stdout@,
        ));
    } else {
        assert(errs.deep_view() =~= old(errs).deep_view() + failures(
            checks.deep_view(),
            stdout@,
        ));
    }
}

/// What a verdict holds: nothing where the run passes, the reports where it fails.
pub open spec fn verdict_view(verdict: Result<(), LitError>) -> Result<(), Seq<Seq<char>>> {
    match verdict {
        Ok(_) => Ok(()),
        Err(errs) => Err(errs.deep_view()),
    }
}

/// The verdict on a run that wrote `stdout`: it passes where every piece is found.
pub open spec fn stdout_verdict(checks: Seq<Seq<char>>, stdout: Seq<char>) -> Result<
    (),
    Seq<Seq<char>>,
> {
    if failures(checks, stdout).len() == 0 {
        Ok(())
    } else {
        Err(failures(checks, stdout))
    }
}

/// What is reported of output that is no text; `report` is the decoder's error.
pub open spec fn decoding_failure(report: Seq<char>) -> Seq<char> {
    "Utf8 decoding stdout failed with "@ + report
}

/// The verdict on a run, once its output was decoded or found to be no text.
pub open spec fn decoded_verdict(
    checks: Seq<Seq<char>>,
    decoded: Result<Seq<char>, Seq<char>>,
) -> Result<(), Seq<Seq<char>>> {
    match decoded {
        Ok(stdout) => stdout_verdict(checks, stdout),
        Err(report) => Err(seq![decoding_failure(report)]),
    }
}

/// The verdict on a run that wrote the bytes `stdout`.
pub open spec fn output_verdict(checks: Seq<Seq<char>>, stdout: Seq<u8>) -> Result<
    (),
    Seq<Seq<char>>,
> {
    decoded_verdict(
        checks,
        if valid_utf8(stdout) {
            Ok(decode_utf8(stdout))
        } else {
            Err(utf8_error_text(stdout))
        },
    )
}

/// An exit code as `Debug` prints it.
pub open spec fn exit_code_text(code: Option<i32>) -> Seq<char> {
    match code {
        Some(n) => "Some("@ + signed_decimal(n as int) + ")"@,
        None => "None"@,
    }
}

/// What is reported of a command that ended without success.
pub open spec fn exit_failure(code: Option<i32>) -> Seq<char> {
    "Command failed with exit code: "@ + exit_code_text(code)
}

/// What is reported of a command that could not be run.
pub open spec fn os_failure(os_error: Seq<char>) -> Seq<char> {
    "OS Error running command: "@ + os_error
}

/// What a command that succeeded wrote, or the report of why the run counts
/// as failed.
pub open spec fn outcome_output(outcome: CommandOutcome) -> Result<Seq<u8>, Seq<Seq<char>>> {
    match outcome {
        CommandOutcome::Exited { success, code, stdout } => if success {
            Ok(stdout@)
        } else {
            Err(seq![exit_failure(code)])
        },
        CommandOutcome::NotRun { os_error } => Err(seq![os_failure(os_error@)]),
    }
}

/// The verdict on a run with the given outcome.
pub open spec fn run_verdict(checks: Seq<Seq<char>>, outcome: CommandOutcome) -> Result<
    (),
    Seq<Seq<char>>,
> {
    match outcome_output(outcome) {
        Ok(stdout) => output_verdict(checks, stdout),
        Err(errs) => Err(errs),
    }
}

/// The lines of a report, each moved in by two spaces.
pub open spec fn indented_lines(msgs: Seq<Seq<char>>) -> Seq<char>
    decreases msgs.len(),
{
    if msgs.len() == 0 {
        Seq::empty()
    } else {
        indented_lines(msgs.drop_last()) + "  "@ + msgs.last() + "\n"@
    }
}

/// What is shown of a run that failed with the reports `msgs`.
pub open spec fn failure_report(msgs: Seq<Seq<char>>) -> Seq<char> {
    "Lit test failed with:\n"@ + indented_lines(msgs)
}

/// What a command that succeeded wrote, or the report of why the run counts
/// as failed: the command ended without success, or could not be run.
pub fn command_output(outcome: CommandOutcome) -> (result: Result<Vec<u8>, LitError>)
    ensures
        match result {
            Ok(stdout) => outcome_output(outcome) == Ok::<Seq<u8>, Seq<Seq<char>>>(stdout@),
            Err(errs) => outcome_output(outcome) == Err::<Seq<u8>, Seq<Seq<char>>>(
                errs.deep_view(),
            ),
        },
{
    match outcome {
        CommandOutcome::Exited { success, code, stdout } => {
            if success {
                Ok(stdout)
            } else {
                let mut msg = String::new();
                msg.append("Command failed with exit code: ");
                match code {
                    Some(n) => {
                        msg.append("Some(");
                        append_signed_decimal(&mut msg, n);
                        msg.append(")");
                    },
                    None => {
                        msg.append("None");
                    },
                }
                assert(msg@ =~= exit_failure(code));
                let mut errs: Vec<String> = Vec::new();
                errs.push(msg);
                assert(errs.deep_view() =~= seq![exit_failure(code)]);
                Err(errs)
            }
        },
        CommandOutcome::NotRun { os_error } => {
            let mut msg = String::new();
            msg.append("OS Error running command: ");
            msg.append(os_error.as_str());
            assert(msg@ =~= os_failure(os_error@));
            let mut errs: Vec<String> = Vec::new();
            errs.push(msg);
            assert(errs.deep_view() =~= seq![os_failure(os_error@)]);
            Err(errs)
        },
    }
}

/// What is shown of a run that failed with the reports `msgs`: a heading,
/// then one line for each report.
pub fn report_failure(msgs: &Vec<String>) -> (report: String)
    ensures
        report@ == failure_report(msgs.deep_view()),
{
    let mut report = String::new();
    report.append("Lit test failed with:\n");
    let mut done: usize = 0;
    assert(msgs.deep_view().take(0) =~= Seq::<Seq<char>>::empty());
    assert(report@ =~= failure_report(msgs.deep_view().take(0)));
    while done < msgs.len()
        invariant
            done <= msgs.len(),
            report@ == failure_report(msgs.deep_view().take(done as int)),
        decreases msgs.len() - done,
    {
        let ghost before = msgs.deep_view().take(done as int);
        report.append("  ");
        report.append(msgs[done].as_str());
        report.append("\n");
        done = done + 1;
        let ghost now = msgs.deep_view().take(done as int);
        assert(now.drop_last() =~= before);
        assert(now.last() == msgs[done - 1]@);
        assert(report@ =~= failure_report(now));
    }
    assert(msgs.deep_view().take(done as int) =~= msgs.deep_view());
    report
}

impl LitTester {
    /// The verdict on a run whose output is yet to be decoded.
    pub fn check_output(&self, stdout: &[u8]) -> (verdict: Result<(), LitError>)
        ensures
            verdict_view(verdict) == output_verdict(self.checks.deep_view(), stdout@),
    {
        let decoded = from_utf8(stdout);
        proof {
            if let Ok(text) = decoded {
                encode_utf8_decode_utf8(text@);
            }
        }
        self.check_decoded(decoded)
    }

    /// The verdict on a run whose output was decoded, or found to be no text
    /// with the decoder's error `report`.
    pub fn check_decoded(&self, decoded: Result<&str, String>) -> (verdict: Result<(), LitError>)
        ensures
            verdict_view(verdict) == decoded_verdict(
                self.checks.deep_view(),
                match decoded {
                    Ok(stdout) => Ok(stdout@),
                    Err(report) => Err(report@),
                },
            ),
    {
        match decoded {
            Ok(s) => self.check_output_stdout(s),
            Err(report) => {
                let mut msg = String::new();
                msg.append("Utf8 decoding stdout failed with ");
                msg.append(report.as_str());
                assert(msg@ =~= decoding_failure(report@));
                let mut errs: Vec<String> = Vec::new();
                errs.push(msg);
                assert(errs.deep_view() =~= seq![decoding_failure(report@)]);
                Err(errs)
            },
        }
    }

    /// The verdict on a run that wrote `stdout`: it passes where each check
    /// is found behind the one before it.
    pub fn check_output_stdout(&self, stdout: &str) -> (verdict: Result<(), LitError>)
        ensures
            verdict_view(verdict) == stdout_verdict(self.checks.deep_view(), stdout@),
            verdict is Ok <==> stand_in_order(self.checks.deep_view(), stdout@),
    {
        proof {
            lemma_no_failures_iff_in_order(self.checks.deep_view(), stdout@);
        }
        let mut errs: Vec<String> = Vec::new();
        assert(errs.deep_view() =~= Seq::<Seq<char>>::empty());
        let checks = self.checks.as_slice();
        assert(checks.deep_view() =~= self.checks.deep_view());
        rec_check_output(checks, stdout, &mut errs);
        assert(errs.deep_view() =~= failures(self.checks.deep_view(), stdout@));
        if !errs.is_empty() {
            Err(errs)
        } else {
            Ok(())
        }
    }

    /// The verdict on a run with the given outcome.
    pub fn run_test(&self, outcome: CommandOutcome) -> (verdict: Result<(), LitError>)
        ensures
            verdict_view(verdict) == run_verdict(self.checks.deep_view(), outcome),
    {
        match command_output(outcome) {
            Ok(stdout) => self.check_output(stdout.as_slice()),
            Err(errs) => Err(errs),
        }
    }

    /// Judges a run with the given outcome: nothing where it passes, and where
    /// it fails what is to be shown of it.
    pub fn test(&self, outcome: CommandOutcome) -> (result: Result<(), String>)
        ensures
            match result {
                Ok(_) => run_verdict(self.checks.deep_view(), outcome) is Ok,
                Err(report) => run_verdict(self.checks.deep_view(), outcome) matches Err(msgs)
                    && report@ == failure_report(msgs),
            },
    {
        match self.run_test(outcome) {
            Ok(()) => Ok(()),
            Err(msgs) => Err(report_failure(&msgs)),
        }
    }
}

} // verus!
