use vstd::prelude::*;

use crate::output::{EntryView, OutputPlan, OutputTarget, PlanView};
use crate::report::{
    decoded_summary, decoding_message, decoding_text, existing_outputs_report, failure_line,
    failure_view, overwritten_lines, parse_failures_report, skipping_message, skipping_text,
    spec_existing_outputs_report, spec_overwritten_outputs_report, spec_parse_failures_report,
    summary_text, ParseFailure,
};

verus! {

/// What to do next in a run over the planned files.
pub enum RunAction {
    /// Print `message`, then decode `input_path` into `output_path`.
    Decode { input_path: String, output_path: String, message: String },
    /// The run is over: print `lines`.
    Finish { lines: Vec<String> },
}

/// A run that decodes, in order, every planned file that is not skipped, going on past the ones
/// that fail.
pub struct DecodeRun {
    queue: Vec<OutputTarget>,
    position: usize,
    decoded: usize,
    failures: Vec<ParseFailure>,
    overwrite: bool,
    existing_outputs: Vec<String>,
}

/// The state of a run, as text.
pub ghost struct RunState {
    /// The files to decode, in order: input and output paths.
    pub queue: Seq<(Seq<char>, Seq<char>)>,
    /// How many of them are done.
    pub position: nat,
    /// How many of those were decoded.
    pub decoded: nat,
    /// The ones that failed: input path and reason.
    pub failures: Seq<(Seq<char>, Seq<char>)>,
    /// Whether existing outputs are overwritten.
    pub overwrite: bool,
    /// The outputs that existed before the run.
    pub existing_outputs: Seq<Seq<char>>,
}

impl View for DecodeRun {
    type V = RunState;

    closed spec fn view(&self) -> RunState {
        RunState {
            queue: self.queue@.map_values(|t: OutputTarget| t@),
            position: self.position as nat,
            decoded: self.decoded as nat,
            failures: self.failures@.map_values(|f: ParseFailure| failure_view(f)),
            overwrite: self.overwrite,
            existing_outputs: self.existing_outputs.deep_view(),
        }
    }
}

/// The entries that are not skipped, in order, as input and output paths.
pub open spec fn files_to_decode(entries: Seq<EntryView>) -> Seq<(Seq<char>, Seq<char>)>
    decreases entries.len(),
{
    if entries.len() == 0 {
        Seq::empty()
    } else {
        let rest = files_to_decode(entries.drop_last());
        let entry = entries.last();
        if entry.skip {
            rest
        } else {
            rest.push((entry.input_path, entry.output_path))
        }
    }
}

/// The state at the start of a run over `plan`.
pub open spec fn initial_run(plan: PlanView, overwrite: bool) -> RunState {
    RunState {
        queue: files_to_decode(plan.entries),
        position: 0,
        decoded: 0,
        failures: Seq::empty(),
        overwrite,
        existing_outputs: plan.existing_outputs,
    }
}

/// Every state that a run reaches: every file done is counted once, as decoded or as failed.
pub open spec fn wf_run(s: RunState) -> bool {
    &&& s.position <= s.queue.len()
    &&& s.decoded + s.failures.len() == s.position
}

/// The lines that close a run: the overwritten outputs (when overwriting), the files that could
/// not be decoded, and how many were.
pub open spec fn final_lines(s: RunState) -> Seq<Seq<char>> {
    (if s.overwrite {
        spec_overwritten_outputs_report(s.existing_outputs)
    } else {
        Seq::empty()
    }) + spec_parse_failures_report(s.failures) + seq![summary_text(s.decoded)]
}

/// The state after the file at `s.position` is done, with `failure` as the reason it could not
/// be decoded (`None` when it was), and the lines to print at once.
pub open spec fn spec_finish_file(s: RunState, failure: Option<Seq<char>>) -> (
    RunState,
    Seq<Seq<char>>,
) {
    let file = s.queue[s.position as int];
    match failure {
        None => (RunState { position: s.position + 1, decoded: s.decoded + 1, ..s }, Seq::empty()),
        Some(error) => (
            RunState { position: s.position + 1, failures: s.failures.push((file.0, error)), ..s },
            seq![skipping_text(file.0, error)],
        ),
    }
}

impl DecodeRun {
    /// Whether the state is one that a run reaches.
    pub open spec fn wf(&self) -> bool {
        wf_run(self@)
    }

    /// Starts a run over `plan`; also gives the lines that report the outputs that exist and
    /// are skipped.
    pub fn start(plan: &OutputPlan, overwrite: bool) -> (r: (DecodeRun, Vec<String>))
        ensures
            r.0@ == initial_run(plan@, overwrite),
            r.0.wf(),
            r.1.deep_view() == spec_existing_outputs_report(plan@.existing_outputs, overwrite),
    {
        let ghost entries = plan@.entries;
        let mut queue: Vec<OutputTarget> = Vec::new();
        let mut i: usize = 0;
        while i < plan.entries.len()
            invariant
                0 <= i <= plan.entries@.len(),
                entries == plan@.entries,
                queue@.map_values(|t: OutputTarget| t@) == files_to_decode(entries.take(i as int)),
            decreases plan.entries@.len() - i,
        {
            let ghost before = queue@.map_values(|t: OutputTarget| t@);
            proof {
                assert(entries.take(i + 1).drop_last() =~= entries.take(i as int));
                assert(entries.take(i + 1).last() == plan.entries@[i as int]@);
            }
            let entry = &plan.entries[i];
            if !entry.skip {
                queue.push(
                    OutputTarget {
                        input_path: entry.input_path.clone(),
                        output_path: entry.output_path.clone(),
                    },
                );
                proof {
                    assert(queue@.map_values(|t: OutputTarget| t@) =~= before.push(
                        (entry.input_path@, entry.output_path@),
                    ));
                }
            }
            i = i + 1;
        }
        proof {
            assert(entries.take(plan.entries@.len() as int) =~= entries);
        }
        let mut existing_outputs: Vec<String> = Vec::new();
        let mut k: usize = 0;
        while k < plan.existing_outputs.len()
            invariant
                0 <= k <= plan.existing_outputs@.len(),
                existing_outputs.deep_view() == plan.existing_outputs.deep_view().take(k as int),
            decreases plan.existing_outputs@.len() - k,
        {
            let ghost before = existing_outputs.deep_view();
            existing_outputs.push(plan.existing_outputs[k].clone());
            proof {
                assert(plan.existing_outputs.deep_view()[k as int] == plan.existing_outputs@[k as int]@);
                assert(existing_outputs.deep_view() =~= before.push(plan.existing_outputs@[k as int]@));
                assert(existing_outputs.deep_view() =~= plan.existing_outputs.deep_view().take(
                    k + 1,
                ));
            }
            k = k + 1;
        }
        proof {
            assert(plan.existing_outputs.deep_view().take(plan.existing_outputs@.len() as int)
                =~= plan.existing_outputs.deep_view());
        }
        let report = existing_outputs_report(plan, overwrite);
        let run = DecodeRun {
            queue,
            position: 0,
            decoded: 0,
            failures: Vec::new(),
            overwrite,
            existing_outputs,
        };
        proof {
            assert(run@.failures =~= Seq::<(Seq<char>, Seq<char>)>::empty());
        }
        (run, report)
    }

    /// The next file to decode, or, when all are done, the closing lines.
    pub fn next_action(&self) -> (r: RunAction)
        requires
            self.wf(),
        ensures
            self@.position < self@.queue.len() ==> (r matches RunAction::Decode {
                input_path,
                output_path,
                message,
            } && input_path@ == self@.queue[self@.position as int].0 && output_path@
                == self@.queue[self@.position as int].1 && message@ == decoding_text(
                input_path@,
                output_path@,
            )),
            self@.position >= self@.queue.len() ==> (r matches RunAction::Finish { lines }
                && lines.deep_view() == final_lines(self@)),
    {
        if self.position < self.queue.len() {
            let target = &self.queue[self.position];
            proof {
                assert(self@.queue[self@.position as int] == target@);
            }
            let message = decoding_message(target.input_path.as_str(), target.output_path.as_str());
            RunAction::Decode {
                input_path: target.input_path.clone(),
                output_path: target.output_path.clone(),
                message,
            }
        } else {
            let mut lines: Vec<String> = if self.overwrite {
                overwritten_lines(&self.existing_outputs)
            } else {
                Vec::new()
            };
            let ghost first = lines.deep_view();
            let failure_list = self.failures.as_slice();
            let mut failures = parse_failures_report(failure_list);
            let ghost second = failures.deep_view();
            lines.append(&mut failures);
            let summary = decoded_summary(self.decoded);
            lines.push(summary);
            proof {
                assert(failure_list@ == self.failures@);
                assert(first =~= (if self@.overwrite {
                    spec_overwritten_outputs_report(self@.existing_outputs)
                } else {
                    Seq::empty()
                }));
                assert(lines.deep_view() =~= first + second + seq![summary_text(self@.decoded)]);
            }
            RunAction::Finish { lines }
        }
    }

    /// Records that the current file is done: decoded when `failure` is `None`, else not
    /// decoded for that reason; gives the lines to print at once.
    pub fn finish_file(&mut self, failure: Option<String>) -> (r: Vec<String>)
        requires
            old(self).wf(),
            old(self)@.position < old(self)@.queue.len(),
        ensures
            final(self).wf(),
            (final(self)@, r.deep_view()) == spec_finish_file(
                old(self)@,
                match failure {
                    Some(e) => Some(e@),
                    None => None,
                },
            ),
    {
        let ghost s = self@;
        let position = self.position;
        let count: usize = self.queue.len();
        proof {
            assert(self.queue@.len() == s.queue.len());
            assert(position < count);
            assert(s.queue[position as int] == self.queue@[position as int]@);
        }
        let mut lines: Vec<String> = Vec::new();
        match failure {
            None => {
                self.decoded = self.decoded + 1;
                self.position = position + 1;
                proof {
                    assert(self@.failures =~= s.failures);
                    assert(self@.queue =~= s.queue);
                    assert(lines.deep_view() =~= Seq::<Seq<char>>::empty());
                }
            },
            Some(error) => {
                let input_path = self.queue[position].input_path.clone();
                lines.push(skipping_message(input_path.as_str(), error.as_str()));
                self.failures.push(ParseFailure { input_path, error });
                self.position = position + 1;
                proof {
                    assert(self@.failures =~= s.failures.push(
                        (s.queue[position as int].0, error@),
                    ));
                    assert(self@.queue =~= s.queue);
                    assert(lines.deep_view() =~= seq![
                        skipping_text(s.queue[position as int].0, error@),
                    ]);
                }
            },
        }
        lines
    }
}

} // verus!

verus! {

/// Whatever comes of the current file, the run moves on to the next one: the files are done in
/// order, each once, and a failure stops nothing.
pub proof fn law_run_goes_on(s: RunState, failure: Option<Seq<char>>)
    requires
        wf_run(s),
        s.position < s.queue.len(),
    ensures
        wf_run(spec_finish_file(s, failure).0),
        spec_finish_file(s, failure).0.position == s.position + 1,
        spec_finish_file(s, failure).0.queue == s.queue,
        spec_finish_file(s, failure).0.failures.subrange(0, s.failures.len() as int)
            == s.failures,
{
    let t = spec_finish_file(s, failure).0;
    assert(t.failures.subrange(0, s.failures.len() as int) =~= s.failures);
}

/// A file that cannot be decoded is reported at once, with its reason, and is listed in the
/// closing lines.
pub proof fn law_failure_reported_twice(s: RunState, error: Seq<char>)
    requires
        wf_run(s),
        s.position < s.queue.len(),
    ensures
        spec_finish_file(s, Some(error)).1 == seq![
            skipping_text(s.queue[s.position as int].0, error),
        ],
        final_lines(spec_finish_file(s, Some(error)).0).contains(
            failure_line((s.queue[s.position as int].0, error)),
        ),
{
    lemma_failures_in_final_lines(spec_finish_file(s, Some(error)).0);
    let t = spec_finish_file(s, Some(error)).0;
    assert(t.failures[t.failures.len() - 1] == (s.queue[s.position as int].0, error));
}

/// Every failure of a run is among its closing lines.
pub proof fn lemma_failures_in_final_lines(s: RunState)
    ensures
        forall|k: int|
            0 <= k < s.failures.len() ==> final_lines(s).contains(
                failure_line(#[trigger] s.failures[k]),
            ),
{
    assert forall|k: int| 0 <= k < s.failures.len() implies final_lines(s).contains(
        failure_line(#[trigger] s.failures[k]),
    ) by {
        let head = if s.overwrite {
            spec_overwritten_outputs_report(s.existing_outputs)
        } else {
            Seq::empty()
        };
        let report = spec_parse_failures_report(s.failures);
        assert(report[k + 1] == failure_line(s.failures[k]));
        assert(final_lines(s)[head.len() + k + 1] == report[k + 1]);
    }
}

/// When the run is over, every file was counted once, as decoded or as failed, and the closing
/// line gives the number decoded.
pub proof fn law_every_file_counted(s: RunState)
    requires
        wf_run(s),
        s.position >= s.queue.len(),
    ensures
        s.decoded + s.failures.len() == s.queue.len(),
        final_lines(s).last() == summary_text(s.decoded),
{
}

} // verus!
