//! Running a batch of sub-commands: what to launch, what has ended, what to
//! report and with which code to exit.
//!
//! A run goes through these steps. `plan` splits the command line into its
//! sub-commands. `Batch::new` takes them, and all of them are launched. The
//! batch then waits: `Batch::record` notes each sub-command that ends, and
//! `Batch::results` gives nothing before the last one has. From the results
//! `report` writes one line for each sub-command and `exit_code` picks the
//! code that the run ends with.
//!
//! The sub-commands run side by side and may end in any order. Everything
//! decided here goes by the position that a sub-command has in the command
//! line, never by the moment at which it ended.

use vstd::prelude::*;
use vstd::string::StringExecFns;
use crate::text::{
    free_of, free_of_whitespace, joined, lemma_pieces_of_joined, lemma_words_are_visible,
    split_terminator, split_whitespace, terminated_pieces, trim, trimmed, words,
};

verus! {

/// The exit code used for a failed sub-command that ended without a code of
/// its own, as one killed by a signal does.
pub const NO_EXIT_CODE: i32 = 1;

/// One program to launch.
#[derive(Debug, PartialEq, Eq)]
pub struct SubCommand {
    /// The sub-command as it stands in the command line.
    pub text: String,
    /// The program to run: the first word of the text.
    pub program: String,
    /// The arguments of the program: the other words of the text.
    pub arguments: Vec<String>,
}

/// A sub-command as plain text.
pub struct SubCommandView {
    pub text: Seq<char>,
    pub program: Seq<char>,
    pub arguments: Seq<Seq<char>>,
}

impl View for SubCommand {
    type V = SubCommandView;

    open spec fn view(&self) -> SubCommandView {
        SubCommandView {
            text: self.text@,
            program: self.program@,
            arguments: self.arguments.deep_view(),
        }
    }
}

impl DeepView for SubCommand {
    type V = SubCommandView;

    open spec fn deep_view(&self) -> SubCommandView {
        self@
    }
}

/// Why a command line cannot be run.
#[derive(Clone, Copy, Debug, PartialEq, Eq)]
pub enum PlanError {
    /// The sub-command at this position names no program.
    NoProgram { position: usize },
}

/// Whether `piece` names no program: it holds nothing but whitespace.
pub open spec fn blank(piece: Seq<char>) -> bool {
    words(piece).len() == 0
}

/// The sub-command that `piece` stands for: its first word is the program,
/// the words after it are the arguments. There is no quoting.
pub open spec fn sub_command(piece: Seq<char>) -> SubCommandView {
    SubCommandView { text: piece, program: words(piece)[0], arguments: words(piece).skip(1) }
}

/// The position of the first blank piece; the number of pieces if none is
/// blank.
pub open spec fn first_blank(parts: Seq<Seq<char>>) -> nat
    decreases parts.len(),
{
    if parts.len() == 0 || blank(parts[0]) {
        0
    } else {
        1 + first_blank(parts.drop_first())
    }
}

/// The sub-commands of `command_line`, in order: one for each piece that a
/// `;` ends or that stands after the last `;`. A piece that names no
/// program is an error, the first such piece being reported.
pub open spec fn planned(command_line: Seq<char>) -> Result<Seq<SubCommandView>, PlanError> {
    let parts = terminated_pieces(command_line, ';');
    if first_blank(parts) < parts.len() {
        Err(PlanError::NoProgram { position: first_blank(parts) as usize })
    } else {
        Ok(parts.map_values(|piece: Seq<char>| sub_command(piece)))
    }
}

/// A plan with its sub-commands, if any, taken by their view.
pub open spec fn plan_view(plan: Result<Vec<SubCommand>, PlanError>) -> Result<
    Seq<SubCommandView>,
    PlanError,
> {
    match plan {
        Ok(commands) => Ok(commands.deep_view()),
        Err(error) => Err(error),
    }
}

/// The first blank piece stands at `n` when no piece before it is blank and
/// the one at `n`, if any, is.
pub proof fn lemma_first_blank_is(parts: Seq<Seq<char>>, n: int)
    requires
        0 <= n <= parts.len(),
        forall|i: int| 0 <= i < n ==> !blank(#[trigger] parts[i]),
        n < parts.len() ==> blank(parts[n]),
    ensures
        first_blank(parts) == n,
    decreases n,
{
    if n > 0 {
        let rest = parts.drop_first();
        assert(!blank(parts[0]));
        assert forall|i: int| 0 <= i < n - 1 implies !blank(#[trigger] rest[i]) by {
            assert(rest[i] == parts[i + 1]);
        }
        if n - 1 < rest.len() {
            assert(rest[n - 1] == parts[n]);
        }
        lemma_first_blank_is(rest, n - 1);
    }
}

/// No piece before the first blank one is blank.
pub proof fn lemma_first_blank_holds(parts: Seq<Seq<char>>)
    ensures
        first_blank(parts) <= parts.len(),
        forall|i: int| 0 <= i < first_blank(parts) ==> !blank(#[trigger] parts[i]),
    decreases parts.len(),
{
    if parts.len() > 0 && !blank(parts[0]) {
        let rest = parts.drop_first();
        lemma_first_blank_holds(rest);
        assert forall|i: int| 0 <= i < first_blank(parts) implies !blank(#[trigger] parts[i]) by {
            if i > 0 {
                assert(parts[i] == rest[i - 1]);
            }
        }
    }
}

/// Every sub-command of a plan names a program: a text that is not empty
/// and holds no whitespace.
pub proof fn lemma_planned_programs(command_line: Seq<char>)
    ensures
        planned(command_line) matches Ok(commands) ==> forall|i: int|
            0 <= i < commands.len() ==> (#[trigger] commands[i]).program.len() > 0
                && free_of_whitespace(commands[i].program),
{
    let parts = terminated_pieces(command_line, ';');
    lemma_first_blank_holds(parts);
    if planned(command_line) is Ok {
        let commands = planned(command_line)->Ok_0;
        assert forall|i: int| 0 <= i < commands.len() implies (#[trigger] commands[i]).program.len()
            > 0 && free_of_whitespace(commands[i].program) by {
            assert(!blank(parts[i]));
            lemma_words_are_visible(parts[i]);
            assert(commands[i].program == words(parts[i])[0]);
        }
    }
}

/// Splits `command_line` into the sub-commands to launch. The plan is all or
/// nothing: a piece that names no program leaves nothing to launch, not even
/// the sub-commands before it.
pub fn plan(command_line: &str) -> (out: Result<Vec<SubCommand>, PlanError>)
    ensures
        plan_view(out) == planned(command_line@),
{
    let parts = split_terminator(command_line, ';');
    let ghost texts = parts.deep_view();
    let mut commands: Vec<SubCommand> = Vec::new();
    let mut i: usize = 0;
    while i < parts.len()
        invariant
            i <= parts.len(),
            texts == parts.deep_view(),
            texts == terminated_pieces(command_line@, ';'),
            commands.len() == i,
            forall|j: int| 0 <= j < i ==> !blank(#[trigger] texts[j]),
            forall|j: int| 0 <= j < i ==> (#[trigger] commands@[j])@ == sub_command(texts[j]),
        decreases parts.len() - i,
    {
        let mut found = split_whitespace(parts[i].as_str());
        assert(found.deep_view() == words(texts[i as int]));
        if found.len() == 0 {
            proof {
                lemma_first_blank_is(texts, i as int);
            }
            return Err(PlanError::NoProgram { position: i });
        }
        let ghost all = found.deep_view();
        let program = found.remove(0);
        proof {
            assert(program@ == all[0]);
            assert(found.deep_view() =~= all.skip(1));
        }
        commands.push(SubCommand { text: parts[i].clone(), program, arguments: found });
        i += 1;
    }
    proof {
        lemma_first_blank_is(texts, texts.len() as int);
        assert(commands.deep_view() =~= texts.map_values(|piece: Seq<char>| sub_command(piece)));
    }
    Ok(commands)
}

/// How a sub-command ended.
#[derive(Clone, Copy, Debug, PartialEq, Eq)]
pub struct ExitStatus {
    /// Whether the sub-command succeeded.
    pub success: bool,
    /// The exit code, if the sub-command ended with one.
    pub code: Option<i32>,
}

impl ExitStatus {
    /// Whether the status is one that a process can end with: success is
    /// the exit code zero.
    pub open spec fn consistent(self) -> bool {
        self.success <==> self.code == Some(0i32)
    }

    /// The code to exit with on account of this status.
    pub open spec fn exit_code(self) -> i32 {
        match self.code {
            Some(code) => code,
            None => NO_EXIT_CODE,
        }
    }

    /// The status of a sub-command that ended with `code`, or without one.
    pub fn from_code(code: Option<i32>) -> (out: ExitStatus)
        ensures
            out.code == code,
            out.consistent(),
    {
        let success = match code {
            Some(value) => value == 0,
            None => false,
        };
        ExitStatus { success, code }
    }
}

/// A sub-command that has ended.
#[derive(Debug, PartialEq, Eq)]
pub struct SubCommandResult {
    /// The sub-command as it stood in the command line.
    pub command_text: String,
    /// How it ended.
    pub status: ExitStatus,
}

/// A result as plain text.
pub struct ResultView {
    pub command_text: Seq<char>,
    pub status: ExitStatus,
}

impl View for SubCommandResult {
    type V = ResultView;

    open spec fn view(&self) -> ResultView {
        ResultView { command_text: self.command_text@, status: self.status }
    }
}

impl DeepView for SubCommandResult {
    type V = ResultView;

    open spec fn deep_view(&self) -> ResultView {
        self@
    }
}

/// Whether every one of `statuses` is there.
pub open spec fn all_finished(statuses: Seq<Option<ExitStatus>>) -> bool {
    forall|i: int| 0 <= i < statuses.len() ==> (#[trigger] statuses[i]) is Some
}

/// Whether every one of `statuses` is there and is a success.
pub open spec fn all_succeeded(statuses: Seq<Option<ExitStatus>>) -> bool {
    forall|i: int|
        0 <= i < statuses.len() ==> (#[trigger] statuses[i]) is Some && statuses[i]->0.success
}

/// The results of `commands`, position by position.
pub open spec fn results_of(
    commands: Seq<SubCommandView>,
    statuses: Seq<Option<ExitStatus>>,
) -> Seq<ResultView> {
    Seq::new(
        commands.len(),
        |i: int| ResultView { command_text: commands[i].text, status: statuses[i]->0 },
    )
}

/// The sub-commands that were launched together, and how those that have
/// ended so far did end.
pub struct Batch {
    commands: Vec<SubCommand>,
    statuses: Vec<Option<ExitStatus>>,
}

impl Batch {
    #[verifier::type_invariant]
    spec fn well_formed(self) -> bool {
        self.statuses.len() == self.commands.len()
    }

    /// The sub-commands of the batch, in the order of the command line.
    pub closed spec fn commands(self) -> Seq<SubCommandView> {
        self.commands.deep_view()
    }

    /// For each position, how its sub-command ended, once it has.
    pub closed spec fn statuses(self) -> Seq<Option<ExitStatus>> {
        self.statuses@
    }

    /// A batch of which nothing has ended yet.
    pub fn new(commands: Vec<SubCommand>) -> (out: Batch)
        ensures
            out.commands() == commands.deep_view(),
            out.statuses() == Seq::new(commands.len() as nat, |i: int| None::<ExitStatus>),
    {
        let mut statuses: Vec<Option<ExitStatus>> = Vec::new();
        let mut i: usize = 0;
        while i < commands.len()
            invariant
                i <= commands.len(),
                statuses.len() == i,
                forall|j: int| 0 <= j < i ==> statuses@[j] is None,
            decreases commands.len() - i,
        {
            statuses.push(None);
            i += 1;
        }
        proof {
            assert(statuses@ =~= Seq::new(commands.len() as nat, |i: int| None::<ExitStatus>));
        }
        Batch { commands, statuses }
    }

    /// The number of sub-commands.
    pub fn len(&self) -> (out: usize)
        ensures
            out == self.commands().len(),
            out == self.statuses().len(),
    {
        proof {
            use_type_invariant(self);
        }
        self.commands.len()
    }

    /// The sub-commands to launch, in order.
    pub fn sub_commands(&self) -> (out: &Vec<SubCommand>)
        ensures
            out.deep_view() == self.commands(),
    {
        &self.commands
    }

    /// Notes that the sub-command at `position` has ended with `status`.
    /// A position outside the batch is not recorded.
    pub fn record(&mut self, position: usize, status: ExitStatus) -> (recorded: bool)
        ensures
            final(self).commands() == old(self).commands(),
            recorded == (position < old(self).statuses().len()),
            recorded ==> final(self).statuses() == old(self).statuses().update(
                position as int,
                Some(status),
            ),
            !recorded ==> final(self).statuses() == old(self).statuses(),
    {
        proof {
            use_type_invariant(&*self);
        }
        if position < self.statuses.len() {
            self.statuses[position] = Some(status);
            true
        } else {
            false
        }
    }

    /// Whether every sub-command has ended.
    pub fn is_complete(&self) -> (out: bool)
        ensures
            out == all_finished(self.statuses()),
    {
        let mut i: usize = 0;
        while i < self.statuses.len()
            invariant
                i <= self.statuses.len(),
                forall|j: int| 0 <= j < i ==> (#[trigger] self.statuses@[j]) is Some,
            decreases self.statuses.len() - i,
        {
            if self.statuses[i].is_none() {
                return false;
            }
            i += 1;
        }
        true
    }

    /// The results to report, in the order of the command line, whatever
    /// the order in which the sub-commands ended; `None` as long as one of
    /// them has not.
    pub fn results(&self) -> (out: Option<Vec<SubCommandResult>>)
        ensures
            out is Some <==> all_finished(self.statuses()),
            out matches Some(results) ==> results.deep_view() == results_of(
                self.commands(),
                self.statuses(),
            ),
    {
        proof {
            use_type_invariant(self);
        }
        let mut results: Vec<SubCommandResult> = Vec::new();
        let mut i: usize = 0;
        while i < self.commands.len()
            invariant
                i <= self.commands.len(),
                self.statuses.len() == self.commands.len(),
                results.len() == i,
                forall|j: int| 0 <= j < i ==> (#[trigger] self.statuses@[j]) is Some,
                forall|j: int|
                    0 <= j < i ==> (#[trigger] results@[j])@ == (ResultView {
                        command_text: self.commands@[j].text@,
                        status: self.statuses@[j]->0,
                    }),
            decreases self.commands.len() - i,
        {
            match self.statuses[i] {
                None => {
                    return None;
                },
                Some(status) => {
                    results.push(
                        SubCommandResult { command_text: self.commands[i].text.clone(), status },
                    );
                },
            }
            i += 1;
        }
        proof {
            assert(results.deep_view() =~= results_of(self.commands(), self.statuses()));
        }
        Some(results)
    }
}

/// The position of the first result that is a failure; the number of
/// results if none is.
pub open spec fn first_failure(results: Seq<ResultView>) -> nat
    decreases results.len(),
{
    if results.len() == 0 || !results[0].status.success {
        0
    } else {
        1 + first_failure(results.drop_first())
    }
}

/// The code to exit with: zero if every sub-command succeeded, else the exit
/// code of the first, by position, that failed.
pub open spec fn final_code(results: Seq<ResultView>) -> i32 {
    if first_failure(results) < results.len() {
        results[first_failure(results) as int].status.exit_code()
    } else {
        0
    }
}

/// The first failure stands at `n` when every result before it is a success
/// and the one at `n`, if any, is not.
pub proof fn lemma_first_failure_is(results: Seq<ResultView>, n: int)
    requires
        0 <= n <= results.len(),
        forall|i: int| 0 <= i < n ==> (#[trigger] results[i]).status.success,
        n < results.len() ==> !results[n].status.success,
    ensures
        first_failure(results) == n,
    decreases n,
{
    if n > 0 {
        let rest = results.drop_first();
        assert(results[0].status.success);
        assert forall|i: int| 0 <= i < n - 1 implies (#[trigger] rest[i]).status.success by {
            assert(rest[i] == results[i + 1]);
        }
        if n - 1 < rest.len() {
            assert(rest[n - 1] == results[n]);
        }
        lemma_first_failure_is(rest, n - 1);
    }
}

/// Computes the code to exit with.
pub fn exit_code(results: &Vec<SubCommandResult>) -> (code: i32)
    ensures
        code == final_code(results.deep_view()),
{
    let mut i: usize = 0;
    while i < results.len()
        invariant
            i <= results.len(),
            forall|j: int| 0 <= j < i ==> (#[trigger] results.deep_view()[j]).status.success,
        decreases results.len() - i,
    {
        if !results[i].status.success {
            proof {
                lemma_first_failure_is(results.deep_view(), i as int);
            }
            return match results[i].status.code {
                Some(code) => code,
                None => NO_EXIT_CODE,
            };
        }
        i += 1;
    }
    proof {
        lemma_first_failure_is(results.deep_view(), results.len() as int);
    }
    0
}

/// The mark that ends the line of a sub-command that succeeded.
pub open spec fn pass_mark() -> Seq<char> {
    " \u{2705}"@
}

/// The mark that ends the line of a sub-command that failed.
pub open spec fn fail_mark() -> Seq<char> {
    " \u{274c}"@
}

/// The line that reports `result`: the text of the sub-command without the
/// whitespace around it, then the mark of how it ended.
pub open spec fn report_line(result: ResultView) -> Seq<char> {
    trimmed(result.command_text) + if result.status.success {
        pass_mark()
    } else {
        fail_mark()
    }
}

/// The lines of the report: one for each result, in the same order.
pub open spec fn report_lines(results: Seq<ResultView>) -> Seq<Seq<char>> {
    results.map_values(|result: ResultView| report_line(result))
}

/// The heading that stands above the lines of a report.
pub fn report_header() -> (out: &'static str)
    ensures
        out@ == "==========  Report  =========="@,
{
    "==========  Report  =========="
}

/// Writes the lines of the report.
pub fn report(results: &Vec<SubCommandResult>) -> (out: Vec<String>)
    ensures
        out.deep_view() == report_lines(results.deep_view()),
{
    let mut out: Vec<String> = Vec::new();
    let mut i: usize = 0;
    while i < results.len()
        invariant
            i <= results.len(),
            out.len() == i,
            forall|j: int| 0 <= j < i ==> (#[trigger] out@[j])@ == report_line(results@[j]@),
        decreases results.len() - i,
    {
        let mut line = trim(results[i].command_text.as_str());
        if results[i].status.success {
            line.append(" \u{2705}");
        } else {
            line.append(" \u{274c}");
        }
        out.push(line);
        i += 1;
    }
    proof {
        assert(out.deep_view() =~= report_lines(results.deep_view()));
    }
    out
}

/// Every result before the first failure is a success, and the result at
/// the first failure, if there is one, is not.
pub proof fn lemma_first_failure_holds(results: Seq<ResultView>)
    ensures
        first_failure(results) <= results.len(),
        forall|i: int| 0 <= i < first_failure(results) ==> (#[trigger] results[i]).status.success,
        first_failure(results) < results.len() ==> !results[first_failure(
            results,
        ) as int].status.success,
    decreases results.len(),
{
    if results.len() > 0 && results[0].status.success {
        let rest = results.drop_first();
        lemma_first_failure_holds(rest);
        assert forall|i: int| 0 <= i < first_failure(results) implies (
        #[trigger] results[i]).status.success by {
            if i > 0 {
                assert(results[i] == rest[i - 1]);
            }
        }
        if first_failure(results) < results.len() {
            assert(results[first_failure(results) as int] == rest[first_failure(rest) as int]);
        }
    }
}

/// A command line made of `k` sub-commands with `;` between them is planned
/// as `k` launches, in the order written, and once all have ended the report
/// has `k` lines in that same order, each with the text of its sub-command
/// and the mark of how that one ended.
pub proof fn lemma_one_launch_and_one_line_each(
    parts: Seq<Seq<char>>,
    statuses: Seq<Option<ExitStatus>>,
)
    requires
        parts.len() >= 1,
        forall|i: int| 0 <= i < parts.len() ==> free_of(#[trigger] parts[i], ';'),
        forall|i: int| 0 <= i < parts.len() ==> !blank(#[trigger] parts[i]),
        statuses.len() == parts.len(),
        all_finished(statuses),
    ensures
        planned(joined(parts, ';')) matches Ok(commands) && {
            let lines = report_lines(results_of(commands, statuses));
            &&& commands.len() == parts.len()
            &&& lines.len() == parts.len()
            &&& forall|i: int|
                0 <= i < parts.len() ==> (#[trigger] commands[i]) == sub_command(parts[i])
            &&& forall|i: int|
                0 <= i < parts.len() ==> #[trigger] lines[i] == report_line(
                    ResultView { command_text: parts[i], status: statuses[i]->0 },
                )
        },
{
    let command_line = joined(parts, ';');
    lemma_pieces_of_joined(parts, ';');
    assert(!blank(parts[parts.len() - 1]));
    assert(parts.last().len() > 0) by {
        if parts.last().len() == 0 {
            assert(parts.last().skip(0) =~= parts.last());
        }
    }
    assert(terminated_pieces(command_line, ';') == parts);
    lemma_first_blank_is(parts, parts.len() as int);
}

/// Where every sub-command succeeded the exit code is zero.
pub proof fn lemma_all_succeeded_exits_zero(results: Seq<ResultView>)
    requires
        forall|i: int| 0 <= i < results.len() ==> (#[trigger] results[i]).status.success,
    ensures
        final_code(results) == 0,
{
    lemma_first_failure_is(results, results.len() as int);
}

/// Where sub-commands failed, the exit code is that of the one that stands
/// first in the command line, whichever of them ended first.
pub proof fn lemma_earliest_failure_decides(results: Seq<ResultView>, position: int)
    requires
        0 <= position < results.len(),
        !results[position].status.success,
        forall|i: int| 0 <= i < position ==> (#[trigger] results[i]).status.success,
    ensures
        final_code(results) == results[position].status.exit_code(),
{
    lemma_first_failure_is(results, position);
}

/// With statuses that processes can end with, the exit code is zero if and
/// only if every sub-command succeeded.
pub proof fn lemma_exit_zero_means_success(results: Seq<ResultView>)
    requires
        forall|i: int| 0 <= i < results.len() ==> (#[trigger] results[i]).status.consistent(),
    ensures
        final_code(results) == 0 <==> forall|i: int|
            0 <= i < results.len() ==> (#[trigger] results[i]).status.success,
{
    lemma_first_failure_holds(results);
    let n = first_failure(results) as int;
    if n < results.len() {
        assert(results[n].status.consistent());
    }
}

/// The order in which two sub-commands end leaves no trace: recording one
/// and then the other gives what recording them the other way round gives.
pub proof fn lemma_completion_order_is_forgotten(
    statuses: Seq<Option<ExitStatus>>,
    first: int,
    first_status: ExitStatus,
    second: int,
    second_status: ExitStatus,
)
    requires
        0 <= first < statuses.len(),
        0 <= second < statuses.len(),
        first != second,
    ensures
        statuses.update(first, Some(first_status)).update(second, Some(second_status))
            == statuses.update(second, Some(second_status)).update(first, Some(first_status)),
{
    assert(statuses.update(first, Some(first_status)).update(second, Some(second_status))
        =~= statuses.update(second, Some(second_status)).update(first, Some(first_status)));
}

/// Running the same command line again, with every sub-command succeeding
/// both times, exits with zero both times and reports the same lines in the
/// same order.
pub proof fn lemma_successful_runs_agree(
    command_line: Seq<char>,
    once: Seq<Option<ExitStatus>>,
    again: Seq<Option<ExitStatus>>,
)
    requires
        planned(command_line) is Ok,
        once.len() == planned(command_line)->Ok_0.len(),
        again.len() == planned(command_line)->Ok_0.len(),
        all_succeeded(once),
        all_succeeded(again),
    ensures
        final_code(results_of(planned(command_line)->Ok_0, once)) == 0,
        final_code(results_of(planned(command_line)->Ok_0, again)) == 0,
        report_lines(results_of(planned(command_line)->Ok_0, once)) == report_lines(
            results_of(planned(command_line)->Ok_0, again),
        ),
{
    let commands = planned(command_line)->Ok_0;
    let a = results_of(commands, once);
    let b = results_of(commands, again);
    assert forall|i: int| 0 <= i < a.len() implies (#[trigger] a[i]).status.success by {
        assert(once[i] is Some);
    }
    assert forall|i: int| 0 <= i < b.len() implies (#[trigger] b[i]).status.success by {
        assert(again[i] is Some);
    }
    lemma_all_succeeded_exits_zero(a);
    lemma_all_succeeded_exits_zero(b);
    assert(report_lines(a) =~= report_lines(b));
}

} // verus!
