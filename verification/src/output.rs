use vstd::prelude::*;

use crate::paths::{
    default_json_path, is_json_path, paths_equal, spec_default_json_path, spec_is_json_path,
    spec_paths_equal,
};
use crate::text::{contains_string, decimal, decimal_string};

verus! {

/// One input file and the JSON file that it is decoded into.
#[derive(Debug)]
pub struct OutputTarget {
    pub input_path: String,
    pub output_path: String,
}

/// One input file, the JSON file that it is decoded into, and whether it is skipped because that
/// file exists and may not be overwritten.
#[derive(Debug)]
pub struct OutputPlanEntry {
    pub input_path: String,
    pub output_path: String,
    pub skip: bool,
}

/// The files to decode, and the outputs that already exist (each listed once).
#[derive(Debug)]
pub struct OutputPlan {
    pub entries: Vec<OutputPlanEntry>,
    pub existing_outputs: Vec<String>,
}

/// An entry as text.
pub ghost struct EntryView {
    pub input_path: Seq<char>,
    pub output_path: Seq<char>,
    pub skip: bool,
}

/// A plan as text.
pub ghost struct PlanView {
    pub entries: Seq<EntryView>,
    pub existing_outputs: Seq<Seq<char>>,
}

impl View for OutputTarget {
    type V = (Seq<char>, Seq<char>);

    open spec fn view(&self) -> (Seq<char>, Seq<char>) {
        (self.input_path@, self.output_path@)
    }
}

impl View for OutputPlanEntry {
    type V = EntryView;

    open spec fn view(&self) -> EntryView {
        EntryView { input_path: self.input_path@, output_path: self.output_path@, skip: self.skip }
    }
}

impl View for OutputPlan {
    type V = PlanView;

    open spec fn view(&self) -> PlanView {
        PlanView {
            entries: self.entries@.map_values(|e: OutputPlanEntry| e@),
            existing_outputs: self.existing_outputs.deep_view(),
        }
    }
}

/// Whether explicit outputs were given, but not one per input.
pub open spec fn counts_mismatch(inputs: nat, outputs: nat) -> bool {
    outputs != 0 && outputs != inputs
}

/// The error for `inputs` inputs and `outputs` explicit outputs.
pub open spec fn mismatch_message(inputs: nat, outputs: nat) -> Seq<char> {
    "--output expects "@ + decimal(inputs) + " file(s), but "@ + decimal(outputs)
        + " were provided"@
}

/// With no explicit outputs: each input that is not a JSON file, with its JSON path, in order.
pub open spec fn automatic_targets(inputs: Seq<Seq<char>>) -> Seq<(Seq<char>, Seq<char>)>
    decreases inputs.len(),
{
    if inputs.len() == 0 {
        Seq::empty()
    } else {
        let rest = automatic_targets(inputs.drop_last());
        let input = inputs.last();
        if spec_is_json_path(input) {
            rest
        } else {
            rest.push((input, spec_default_json_path(input)))
        }
    }
}

/// With explicit outputs (one per input): each input with its output, in order.
pub open spec fn explicit_targets(inputs: Seq<Seq<char>>, outputs: Seq<Seq<char>>) -> Seq<
    (Seq<char>, Seq<char>),
> {
    Seq::new(inputs.len(), |i: int| (inputs[i], outputs[i]))
}

/// The inputs to decode and their outputs, when the counts match.
pub open spec fn planned_targets(inputs: Seq<Seq<char>>, outputs: Seq<Seq<char>>) -> Seq<
    (Seq<char>, Seq<char>),
> {
    if outputs.len() == 0 {
        automatic_targets(inputs)
    } else {
        explicit_targets(inputs, outputs)
    }
}

/// Whether `list` holds a path equal to `path`.
pub open spec fn path_listed(list: Seq<Seq<char>>, path: Seq<char>) -> bool {
    exists|k: int| 0 <= k < list.len() && same_path(#[trigger] list[k], path)
}

/// Whether `a` and `b` are the same path: the same text, or paths that `==` finds equal.
pub open spec fn same_path(a: Seq<char>, b: Seq<char>) -> bool {
    a == b || spec_paths_equal(a, b)
}

/// The outputs, in order, that `existing` holds, each kept only when no path equal to it was
/// kept before.
pub open spec fn existing_outputs_of(outputs: Seq<Seq<char>>, existing: Seq<Seq<char>>) -> Seq<
    Seq<char>,
>
    decreases outputs.len(),
{
    if outputs.len() == 0 {
        Seq::empty()
    } else {
        let kept = existing_outputs_of(outputs.drop_last(), existing);
        let output = outputs.last();
        if existing.contains(output) && !path_listed(kept, output) {
            kept.push(output)
        } else {
            kept
        }
    }
}

/// The plan for the given targets.
pub open spec fn plan_of(
    targets: Seq<(Seq<char>, Seq<char>)>,
    overwrite: bool,
    existing: Seq<Seq<char>>,
) -> PlanView {
    PlanView {
        entries: targets.map_values(
            |t: (Seq<char>, Seq<char>)|
                EntryView {
                    input_path: t.0,
                    output_path: t.1,
                    skip: existing.contains(t.1) && !overwrite,
                },
        ),
        existing_outputs: existing_outputs_of(
            targets.map_values(|t: (Seq<char>, Seq<char>)| t.1),
            existing,
        ),
    }
}

/// The plan, or the error, for `inputs`, explicit `outputs` (none for automatic paths),
/// `overwrite`, and the outputs that exist.
pub open spec fn spec_build_output_plan(
    inputs: Seq<Seq<char>>,
    outputs: Seq<Seq<char>>,
    overwrite: bool,
    existing: Seq<Seq<char>>,
) -> Result<PlanView, Seq<char>> {
    if counts_mismatch(inputs.len(), outputs.len()) {
        Err(mismatch_message(inputs.len(), outputs.len()))
    } else {
        Ok(plan_of(planned_targets(inputs, outputs), overwrite, existing))
    }
}

pub open spec fn plan_result_view(r: Result<OutputPlan, String>) -> Result<PlanView, Seq<char>> {
    match r {
        Ok(plan) => Ok(plan@),
        Err(message) => Err(message@),
    }
}

pub open spec fn targets_result_view(r: Result<Vec<OutputTarget>, String>) -> Result<
    Seq<(Seq<char>, Seq<char>)>,
    Seq<char>,
> {
    match r {
        Ok(targets) => Ok(targets@.map_values(|t: OutputTarget| t@)),
        Err(message) => Err(message@),
    }
}

/// The error for mismatching counts.
fn mismatch_error(inputs: usize, outputs: usize) -> (r: String)
    ensures
        r@ == mismatch_message(inputs as nat, outputs as nat),
{
    let mut message = String::from_str("--output expects ");
    message.append(decimal_string(inputs).as_str());
    message.append(" file(s), but ");
    message.append(decimal_string(outputs).as_str());
    message.append(" were provided");
    message
}

/// The inputs to decode and their outputs, when the counts match.
fn targets_of(input_paths: &[String], output_paths: &[String]) -> (r: Vec<OutputTarget>)
    requires
        !counts_mismatch(input_paths@.len(), output_paths@.len()),
    ensures
        r@.map_values(|t: OutputTarget| t@) == planned_targets(
            input_paths.deep_view(),
            output_paths.deep_view(),
        ),
{
    let ghost inputs = input_paths.deep_view();
    let ghost outputs = output_paths.deep_view();
    let mut targets: Vec<OutputTarget> = Vec::new();
    if output_paths.len() == 0 {
        let mut i: usize = 0;
        while i < input_paths.len()
            invariant
                0 <= i <= input_paths@.len(),
                inputs == input_paths.deep_view(),
                targets@.map_values(|t: OutputTarget| t@) == automatic_targets(
                    inputs.take(i as int),
                ),
            decreases input_paths@.len() - i,
        {
            let ghost before = targets@.map_values(|t: OutputTarget| t@);
            proof {
                assert(inputs.take(i + 1).drop_last() =~= inputs.take(i as int));
                assert(inputs.take(i + 1).last() == input_paths[i as int]@);
            }
            let input = input_paths[i].as_str();
            if !is_json_path(input) {
                let output = default_json_path(input);
                targets.push(OutputTarget { input_path: input.to_owned(), output_path: output });
                proof {
                    assert(targets@.map_values(|t: OutputTarget| t@) =~= before.push(
                        (input@, spec_default_json_path(input@)),
                    ));
                }
            }
            i = i + 1;
        }
        proof {
            assert(inputs.take(input_paths@.len() as int) =~= inputs);
        }
    } else {
        let mut i: usize = 0;
        while i < input_paths.len()
            invariant
                0 <= i <= input_paths@.len(),
                input_paths@.len() == output_paths@.len(),
                inputs == input_paths.deep_view(),
                outputs == output_paths.deep_view(),
                targets@.map_values(|t: OutputTarget| t@) == explicit_targets(
                    inputs,
                    outputs,
                ).take(i as int),
            decreases input_paths@.len() - i,
        {
            let ghost before = targets@.map_values(|t: OutputTarget| t@);
            targets.push(
                OutputTarget {
                    input_path: input_paths[i].clone(),
                    output_path: output_paths[i].clone(),
                },
            );
            proof {
                assert(inputs[i as int] == input_paths@[i as int]@);
                assert(outputs[i as int] == output_paths@[i as int]@);
                assert(targets@.map_values(|t: OutputTarget| t@) =~= before.push(
                    (inputs[i as int], outputs[i as int]),
                ));
                assert(targets@.map_values(|t: OutputTarget| t@) =~= explicit_targets(
                    inputs,
                    outputs,
                ).take(i + 1));
            }
            i = i + 1;
        }
        proof {
            assert(explicit_targets(inputs, outputs).take(input_paths@.len() as int)
                =~= explicit_targets(inputs, outputs));
        }
    }
    targets
}

/// The inputs to decode and their outputs: with explicit outputs (which must be one per
/// input), each input with its output; otherwise each input that is not a JSON file, with its
/// JSON path.
pub fn plan_output_targets(input_paths: &[String], output_paths: &[String]) -> (r: Result<
    Vec<OutputTarget>,
    String,
>)
    ensures
        targets_result_view(r) == if counts_mismatch(input_paths@.len(), output_paths@.len()) {
            Err(mismatch_message(input_paths@.len(), output_paths@.len()))
        } else {
            Ok(planned_targets(input_paths.deep_view(), output_paths.deep_view()))
        },
{
    if output_paths.len() != 0 && output_paths.len() != input_paths.len() {
        return Err(mismatch_error(input_paths.len(), output_paths.len()));
    }
    Ok(targets_of(input_paths, output_paths))
}

/// Whether `list` holds a path equal to `path`.
fn listed(list: &Vec<String>, path: &str) -> (r: bool)
    ensures
        r == path_listed(list.deep_view(), path@),
{
    let mut i: usize = 0;
    while i < list.len()
        invariant
            0 <= i <= list@.len(),
            forall|k: int| 0 <= k < i ==> !same_path(#[trigger] list.deep_view()[k], path@),
        decreases list@.len() - i,
    {
        if paths_equal(list[i].as_str(), path) {
            proof {
                assert(list.deep_view()[i as int] == list[i as int]@);
            }
            return true;
        }
        i = i + 1;
    }
    false
}

/// The plan for decoding `input_paths`: the output of each (given in `output_paths`, one per
/// input, or else the input with the extension `json`, JSON inputs being left out then),
/// whether it is skipped (its output is among `existing_outputs` and `overwrite` is off), and
/// the outputs that exist, each listed once. Fails when `output_paths` is given with another
/// count than `input_paths`.
pub fn build_output_plan(
    input_paths: &[String],
    output_paths: &[String],
    overwrite: bool,
    existing_outputs: &[String],
) -> (r: Result<OutputPlan, String>)
    ensures
        plan_result_view(r) == spec_build_output_plan(
            input_paths.deep_view(),
            output_paths.deep_view(),
            overwrite,
            existing_outputs.deep_view(),
        ),
{
    if output_paths.len() != 0 && output_paths.len() != input_paths.len() {
        return Err(mismatch_error(input_paths.len(), output_paths.len()));
    }
    let targets = targets_of(input_paths, output_paths);
    let ghost tv = targets@.map_values(|t: OutputTarget| t@);
    let ghost outs = tv.map_values(|t: (Seq<char>, Seq<char>)| t.1);
    let ghost existing = existing_outputs.deep_view();
    let mut entries: Vec<OutputPlanEntry> = Vec::new();
    let mut kept: Vec<String> = Vec::new();
    let mut i: usize = 0;
    while i < targets.len()
        invariant
            0 <= i <= targets@.len(),
            tv == targets@.map_values(|t: OutputTarget| t@),
            outs == tv.map_values(|t: (Seq<char>, Seq<char>)| t.1),
            existing_outputs.deep_view() == existing,
            entries@.map_values(|e: OutputPlanEntry| e@) == plan_of(
                tv,
                overwrite,
                existing,
            ).entries.take(i as int),
            kept.deep_view() == existing_outputs_of(outs.take(i as int), existing),
        decreases targets@.len() - i,
    {
        let ghost before_entries = entries@.map_values(|e: OutputPlanEntry| e@);
        let ghost before_kept = kept.deep_view();
        let output = targets[i].output_path.as_str();
        let exists = contains_string(existing_outputs, output);
        proof {
            assert(outs.take(i + 1).drop_last() =~= outs.take(i as int));
            assert(outs.take(i + 1).last() == output@);
        }
        if exists && !listed(&kept, output) {
            kept.push(output.to_owned());
            proof {
                assert(kept.deep_view() =~= before_kept.push(output@));
            }
        }
        entries.push(
            OutputPlanEntry {
                input_path: targets[i].input_path.clone(),
                output_path: output.to_owned(),
                skip: exists && !overwrite,
            },
        );
        proof {
            assert(tv[i as int] == targets@[i as int]@);
            assert(entries@.map_values(|e: OutputPlanEntry| e@) =~= before_entries.push(
                EntryView {
                    input_path: tv[i as int].0,
                    output_path: tv[i as int].1,
                    skip: existing.contains(tv[i as int].1) && !overwrite,
                },
            ));
            assert(entries@.map_values(|e: OutputPlanEntry| e@) =~= plan_of(
                tv,
                overwrite,
                existing,
            ).entries.take(i + 1));
        }
        i = i + 1;
    }
    proof {
        assert(outs.take(targets@.len() as int) =~= outs);
        assert(plan_of(tv, overwrite, existing).entries.take(targets@.len() as int) =~= plan_of(
            tv,
            overwrite,
            existing,
        ).entries);
    }
    let plan = OutputPlan { entries, existing_outputs: kept };
    proof {
        assert(plan@.entries =~= plan_of(tv, overwrite, existing).entries);
    }
    Ok(plan)
}

} // verus!

verus! {

proof fn lemma_automatic_targets(inputs: Seq<Seq<char>>)
    ensures
        forall|k: int|
            0 <= k < automatic_targets(inputs).len() ==> !spec_is_json_path(
                #[trigger] automatic_targets(inputs)[k].0,
            ) && automatic_targets(inputs)[k].1 == spec_default_json_path(
                automatic_targets(inputs)[k].0,
            ),
        forall|i: int|
            0 <= i < inputs.len() && !spec_is_json_path(#[trigger] inputs[i]) ==> exists|k: int|
                0 <= k < automatic_targets(inputs).len() && automatic_targets(inputs)[k].0
                    == inputs[i],
        forall|k: int|
            0 <= k < automatic_targets(inputs).len() ==> #[trigger] inputs.contains(
                automatic_targets(inputs)[k].0,
            ),
    decreases inputs.len(),
{
    if inputs.len() > 0 {
        let init = inputs.drop_last();
        lemma_automatic_targets(init);
        let rest = automatic_targets(init);
        let t = automatic_targets(inputs);
        assert forall|i: int|
            0 <= i < inputs.len() && !spec_is_json_path(#[trigger] inputs[i]) implies exists|k: int|
            0 <= k < t.len() && t[k].0 == inputs[i] by {
            if i < inputs.len() - 1 {
                assert(init[i] == inputs[i]);
                let k = choose|k: int| 0 <= k < rest.len() && rest[k].0 == init[i];
                assert(t[k] == rest[k]);
            } else {
                assert(t[t.len() - 1].0 == inputs[i]);
            }
        }
        assert forall|k: int| 0 <= k < t.len() implies #[trigger] inputs.contains(t[k].0) by {
            if k < rest.len() {
                assert(t[k] == rest[k]);
                assert(init.contains(rest[k].0));
                let j = choose|j: int| 0 <= j < init.len() && init[j] == rest[k].0;
                assert(inputs[j] == init[j]);
            } else {
                assert(inputs[inputs.len() - 1] == t[k].0);
            }
        }
    }
}

proof fn lemma_existing_outputs(outputs: Seq<Seq<char>>, existing: Seq<Seq<char>>)
    ensures
        forall|k: int|
            0 <= k < existing_outputs_of(outputs, existing).len() ==> existing.contains(
                #[trigger] existing_outputs_of(outputs, existing)[k],
            ) && outputs.contains(existing_outputs_of(outputs, existing)[k]),
        forall|j: int, k: int|
            0 <= j < k < existing_outputs_of(outputs, existing).len() ==> !same_path(
                #[trigger] existing_outputs_of(outputs, existing)[j],
                #[trigger] existing_outputs_of(outputs, existing)[k],
            ),
        forall|i: int|
            0 <= i < outputs.len() && existing.contains(#[trigger] outputs[i]) ==> path_listed(
                existing_outputs_of(outputs, existing),
                outputs[i],
            ),
    decreases outputs.len(),
{
    if outputs.len() > 0 {
        let init = outputs.drop_last();
        lemma_existing_outputs(init, existing);
        let kept = existing_outputs_of(init, existing);
        let all = existing_outputs_of(outputs, existing);
        let o = outputs.last();
        assert forall|k: int| 0 <= k < all.len() implies existing.contains(#[trigger] all[k])
            && outputs.contains(all[k]) by {
            if k < kept.len() {
                assert(all[k] == kept[k]);
                let j = choose|j: int| 0 <= j < init.len() && init[j] == kept[k];
                assert(outputs[j] == init[j]);
            } else {
                assert(outputs[outputs.len() - 1] == o);
            }
        }
        assert forall|i: int| 0 <= i < outputs.len() && existing.contains(#[trigger] outputs[i]) implies path_listed(
            all,
            outputs[i],
        ) by {
            if i < outputs.len() - 1 {
                assert(init[i] == outputs[i]);
                let k = choose|k: int| 0 <= k < kept.len() && same_path(kept[k], init[i]);
                assert(all[k] == kept[k]);
            } else if !path_listed(kept, o) {
                assert(all[all.len() - 1] == o);
                assert(same_path(all[all.len() - 1], o));
            } else {
                let k = choose|k: int| 0 <= k < kept.len() && same_path(kept[k], o);
                assert(all[k] == kept[k]);
            }
        }
    }
}

/// In automatic mode (no explicit outputs), JSON inputs are left out, every other input is
/// decoded, and each into its path with the extension `json`, which is either the input path
/// itself (a path without a file name) or a path whose extension is `json`.
pub proof fn law_automatic_outputs(
    inputs: Seq<Seq<char>>,
    overwrite: bool,
    existing: Seq<Seq<char>>,
)
    ensures
        spec_build_output_plan(inputs, Seq::empty(), overwrite, existing) is Ok,
        ({
            let plan = spec_build_output_plan(inputs, Seq::empty(), overwrite, existing)->Ok_0;
            &&& forall|k: int|
                0 <= k < plan.entries.len() ==> {
                    &&& !spec_is_json_path(#[trigger] plan.entries[k].input_path)
                    &&& inputs.contains(plan.entries[k].input_path)
                    &&& plan.entries[k].output_path == spec_default_json_path(
                        plan.entries[k].input_path,
                    )
                }
            &&& forall|i: int|
                0 <= i < inputs.len() && !spec_is_json_path(#[trigger] inputs[i]) ==> exists|k: int|
                    0 <= k < plan.entries.len() && plan.entries[k].input_path == inputs[i]
        }),
{
    lemma_automatic_targets(inputs);
    let t = automatic_targets(inputs);
    let plan = spec_build_output_plan(inputs, Seq::empty(), overwrite, existing)->Ok_0;
    assert(plan.entries.len() == t.len());
    assert forall|k: int| 0 <= k < plan.entries.len() implies {
        &&& !spec_is_json_path(#[trigger] plan.entries[k].input_path)
        &&& inputs.contains(plan.entries[k].input_path)
        &&& plan.entries[k].output_path == spec_default_json_path(plan.entries[k].input_path)
    } by {
        assert(plan.entries[k].input_path == t[k].0);
    }
    assert forall|i: int|
        0 <= i < inputs.len() && !spec_is_json_path(#[trigger] inputs[i]) implies exists|k: int|
        0 <= k < plan.entries.len() && plan.entries[k].input_path == inputs[i] by {
        let k = choose|k: int| 0 <= k < t.len() && t[k].0 == inputs[i];
        assert(plan.entries[k].input_path == t[k].0);
    }
}

/// With one explicit output per input, every input is decoded (JSON inputs too), each into the
/// output at its position.
pub proof fn law_explicit_outputs(
    inputs: Seq<Seq<char>>,
    outputs: Seq<Seq<char>>,
    overwrite: bool,
    existing: Seq<Seq<char>>,
)
    requires
        outputs.len() == inputs.len(),
        outputs.len() > 0,
    ensures
        spec_build_output_plan(inputs, outputs, overwrite, existing) is Ok,
        ({
            let plan = spec_build_output_plan(inputs, outputs, overwrite, existing)->Ok_0;
            &&& plan.entries.len() == inputs.len()
            &&& forall|i: int|
                0 <= i < inputs.len() ==> (#[trigger] plan.entries[i]).input_path == inputs[i]
                    && plan.entries[i].output_path == outputs[i]
        }),
{
}

/// Explicit outputs in another number than the inputs are refused, with the message that
/// gives both numbers.
pub proof fn law_mismatched_outputs_refused(
    inputs: Seq<Seq<char>>,
    outputs: Seq<Seq<char>>,
    overwrite: bool,
    existing: Seq<Seq<char>>,
)
    requires
        outputs.len() > 0,
        outputs.len() != inputs.len(),
    ensures
        spec_build_output_plan(inputs, outputs, overwrite, existing) == Err::<PlanView, Seq<char>>(
            mismatch_message(inputs.len(), outputs.len()),
        ),
{
}

/// Existing outputs are skipped unless `overwrite` is on, and only they; with `overwrite` on,
/// nothing is skipped.
pub proof fn law_skip_existing_unless_overwrite(
    inputs: Seq<Seq<char>>,
    outputs: Seq<Seq<char>>,
    overwrite: bool,
    existing: Seq<Seq<char>>,
)
    requires
        !counts_mismatch(inputs.len(), outputs.len()),
    ensures
        ({
            let plan = spec_build_output_plan(inputs, outputs, overwrite, existing)->Ok_0;
            forall|k: int|
                0 <= k < plan.entries.len() ==> (#[trigger] plan.entries[k]).skip == (
                existing.contains(plan.entries[k].output_path) && !overwrite)
        }),
{
}

/// The existing outputs that the plan lists are outputs of its entries that exist; no two of
/// them are the same path (so, in particular, no text is listed twice); and every entry whose
/// output exists has its output listed, itself or as an equal path.
pub proof fn law_existing_outputs_listed_once(
    inputs: Seq<Seq<char>>,
    outputs: Seq<Seq<char>>,
    overwrite: bool,
    existing: Seq<Seq<char>>,
)
    requires
        !counts_mismatch(inputs.len(), outputs.len()),
    ensures
        ({
            let plan = spec_build_output_plan(inputs, outputs, overwrite, existing)->Ok_0;
            let listed = plan.existing_outputs;
            &&& forall|k: int|
                0 <= k < listed.len() ==> existing.contains(#[trigger] listed[k]) && exists|
                    e: int,
                |
                    0 <= e < plan.entries.len() && plan.entries[e].output_path == listed[k]
            &&& forall|j: int, k: int|
                0 <= j < k < listed.len() ==> !same_path(
                    #[trigger] listed[j],
                    #[trigger] listed[k],
                )
            &&& forall|e: int|
                0 <= e < plan.entries.len() && existing.contains(
                    #[trigger] plan.entries[e].output_path,
                ) ==> path_listed(listed, plan.entries[e].output_path)
        }),
{
    let targets = planned_targets(inputs, outputs);
    let outs = targets.map_values(|t: (Seq<char>, Seq<char>)| t.1);
    lemma_existing_outputs(outs, existing);
    let plan = spec_build_output_plan(inputs, outputs, overwrite, existing)->Ok_0;
    let listed = plan.existing_outputs;
    assert forall|k: int| 0 <= k < listed.len() implies existing.contains(#[trigger] listed[k])
        && exists|e: int| 0 <= e < plan.entries.len() && plan.entries[e].output_path == listed[k] by {
        assert(outs.contains(listed[k]));
        let e = choose|e: int| 0 <= e < outs.len() && outs[e] == listed[k];
        assert(plan.entries[e].output_path == outs[e]);
    }
    assert forall|e: int|
        0 <= e < plan.entries.len() && existing.contains(
            #[trigger] plan.entries[e].output_path,
        ) implies path_listed(listed, plan.entries[e].output_path) by {
        assert(plan.entries[e].output_path == outs[e]);
    }
}

} // verus!
