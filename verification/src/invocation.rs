//! One call of the build tool, and the calls that each kind of batch makes.

use vstd::prelude::*;
use vstd::string::StringExecFns;

use crate::model::{lemma_nothing_selected, Preset, PresetView, Program, ProgramView};
use crate::reconcile::{find_program, position, program_names};
use crate::sequences::{lemma_deep_view_push, lemma_deep_view_take, lemma_filter_map_concat};
use crate::text::{join, join_with};

verus! {

/// One call of the build tool: the program to build, the directory to run
/// in, and the two optional parameters.
#[derive(Debug, PartialEq, Eq)]
pub struct Invocation {
    pub program: String,
    pub directory: String,
    pub output_dir: Option<String>,
    pub features: Option<String>,
}

/// What an [`Invocation`] holds, as plain sequences.
pub struct InvocationView {
    pub program: Seq<char>,
    pub directory: Seq<char>,
    pub output_dir: Option<Seq<char>>,
    pub features: Option<Seq<char>>,
}

impl View for Invocation {
    type V = InvocationView;

    open spec fn view(&self) -> InvocationView {
        InvocationView {
            program: self.program@,
            directory: self.directory@,
            output_dir: self.output_dir.deep_view(),
            features: self.features.deep_view(),
        }
    }
}

impl DeepView for Invocation {
    type V = InvocationView;

    open spec fn deep_view(&self) -> InvocationView {
        self@
    }
}

/// The name of the build tool.
pub open spec fn tool_name() -> Seq<char> {
    "anchor"@
}

/// The feature that a forced build of everything asks for.
pub open spec fn forced_feature() -> Seq<char> {
    "prod"@
}

impl InvocationView {
    /// The output-directory parameter, where one is set.
    pub open spec fn output_arguments(self) -> Seq<Seq<char>> {
        match self.output_dir {
            Some(dir) => seq!["-t"@, dir],
            None => Seq::empty(),
        }
    }

    /// The feature parameter behind its separator, where features are given.
    pub open spec fn feature_arguments(self) -> Seq<Seq<char>> {
        match self.features {
            Some(list) => seq!["--"@, "--features"@, list],
            None => Seq::empty(),
        }
    }

    /// The arguments handed to the build tool, in order.
    pub open spec fn arguments(self) -> Seq<Seq<char>> {
        seq!["build"@, "-p"@, self.program] + self.output_arguments() + self.feature_arguments()
    }

    /// The call as it is shown: the tool and its arguments with one space
    /// between neighbours.
    pub open spec fn command_line(self) -> Seq<char> {
        join(seq![tool_name()] + self.arguments(), " "@)
    }

    /// The message that announces the call.
    pub open spec fn announcement(self) -> Seq<char> {
        "Running: "@ + self.command_line() + " (from "@ + self.directory + ")"@
    }
}

/// Copies an optional text.
pub fn copy_optional(text: &Option<String>) -> (out: Option<String>)
    ensures
        out.deep_view() == text.deep_view(),
{
    match text {
        Some(t) => Some(t.clone()),
        None => None,
    }
}

impl Clone for Invocation {
    fn clone(&self) -> (out: Invocation)
        ensures
            out@ == self@,
    {
        Invocation {
            program: self.program.clone(),
            directory: self.directory.clone(),
            output_dir: copy_optional(&self.output_dir),
            features: copy_optional(&self.features),
        }
    }
}

impl Invocation {
    /// The name of the program to start.
    pub fn tool() -> (name: &'static str)
        ensures
            name@ == tool_name(),
    {
        "anchor"
    }

    /// The arguments to hand to the build tool, in order.
    pub fn arguments(&self) -> (arguments: Vec<String>)
        ensures
            arguments.deep_view() == self@.arguments(),
    {
        let mut arguments: Vec<String> = Vec::new();
        arguments.push("build".to_owned());
        arguments.push("-p".to_owned());
        arguments.push(self.program.clone());
        match &self.output_dir {
            Some(dir) => {
                arguments.push("-t".to_owned());
                arguments.push(dir.clone());
            },
            None => {},
        }
        match &self.features {
            Some(list) => {
                arguments.push("--".to_owned());
                arguments.push("--features".to_owned());
                arguments.push(list.clone());
            },
            None => {},
        }
        assert(arguments.deep_view() =~= self@.arguments());
        arguments
    }

    /// The call as it is shown to the operator.
    pub fn command_line(&self) -> (line: String)
        ensures
            line@ == self@.command_line(),
    {
        let mut words: Vec<String> = Vec::new();
        words.push("anchor".to_owned());
        let mut arguments = self.arguments();
        let ghost first = words;
        let ghost rest = arguments;
        words.append(&mut arguments);
        assert(words.deep_view() =~= seq![tool_name()] + self@.arguments()) by {
            assert(words@ == first@ + rest@);
            assert(words.deep_view().len() == 1 + rest.deep_view().len());
            assert forall|i: int| 0 <= i < words@.len() implies words.deep_view()[i] == (seq![tool_name()]
                + self@.arguments())[i] by {
                if i >= 1 {
                    assert(words@[i] == rest@[i - 1]);
                    assert(rest.deep_view()[i - 1] == rest@[i - 1]@);
                }
            }
        }
        join_with(&words, " ")
    }

    /// The message that announces the call.
    pub fn announcement(&self) -> (line: String)
        ensures
            line@ == self@.announcement(),
    {
        let mut line = "Running: ".to_owned();
        let command = self.command_line();
        line.append(command.as_str());
        line.append(" (from ");
        line.append(self.directory.as_str());
        line.append(")");
        line
    }
}

/// The call that a selective batch makes for `program`: none unless a feature
/// is selected, else one with the selected names joined by commas.
pub open spec fn selective_call(program: ProgramView, output_dir: Option<Seq<char>>) -> Option<
    InvocationView,
> {
    if program.chosen().len() > 0 {
        Some(
            InvocationView {
                program: program.name,
                directory: program.path,
                output_dir,
                features: Some(join(program.chosen(), ","@)),
            },
        )
    } else {
        None
    }
}

/// The calls of a selective batch: one for each program with a selected
/// feature, in program order.
pub open spec fn selective_plan(programs: Seq<ProgramView>, output_dir: Option<Seq<char>>) -> Seq<
    InvocationView,
> {
    programs.filter_map(|p: ProgramView| selective_call(p, output_dir))
}

/// A program whose flags are all unset adds nothing to a selective batch: no
/// call is made for it, and the plan is the same with it and without it,
/// wherever among the programs it stands.
pub proof fn lemma_unselected_program_is_skipped(
    before: Seq<ProgramView>,
    program: ProgramView,
    after: Seq<ProgramView>,
    output_dir: Option<Seq<char>>,
)
    requires
        forall|i: int| 0 <= i < program.selected.len() ==> !program.selected[i],
    ensures
        selective_call(program, output_dir) is None,
        selective_plan(before.push(program) + after, output_dir) == selective_plan(
            before + after,
            output_dir,
        ),
{
    let call = |p: ProgramView| selective_call(p, output_dir);
    lemma_nothing_selected(program);
    assert(call(program) is None);
    assert(before.push(program) =~= before + seq![program]);
    Seq::<ProgramView>::lemma_filter_map_singleton(program, call);
    lemma_filter_map_concat(before, seq![program], call);
    lemma_filter_map_concat(before + seq![program], after, call);
    lemma_filter_map_concat(before, after, call);
    assert(before.filter_map(call) + Seq::<InvocationView>::empty() =~= before.filter_map(call));
}

/// The call that a batch of everything makes for `program`, whatever is
/// selected in it.
pub open spec fn full_call(program: ProgramView, forced: bool, output_dir: Option<Seq<char>>)
    -> InvocationView {
    InvocationView {
        program: program.name,
        directory: program.path,
        output_dir,
        features: if forced {
            Some(forced_feature())
        } else {
            None
        },
    }
}

/// The calls of a batch of everything: one for each program, in program order.
pub open spec fn full_plan(programs: Seq<ProgramView>, forced: bool, output_dir: Option<Seq<char>>)
    -> Seq<InvocationView> {
    programs.map_values(|p: ProgramView| full_call(p, forced, output_dir))
}

/// The call that a replay makes for one entry of a preset: none unless a
/// program of the entry's name is known, else one in the directory of the
/// first such program, with the entry's features joined by commas.
pub open spec fn replay_call(
    entry: (Seq<char>, Seq<Seq<char>>),
    programs: Seq<ProgramView>,
    output_dir: Option<Seq<char>>,
) -> Option<InvocationView> {
    match position(program_names(programs), entry.0) {
        Some(j) => Some(
            InvocationView {
                program: entry.0,
                directory: programs[j].path,
                output_dir,
                features: Some(join(entry.1, ","@)),
            },
        ),
        None => None,
    }
}

/// The calls of a replay: one for each entry of the preset whose program is
/// known, in entry order.
pub open spec fn replay_plan(
    preset: PresetView,
    programs: Seq<ProgramView>,
    output_dir: Option<Seq<char>>,
) -> Seq<InvocationView> {
    preset.programs.filter_map(
        |e: (Seq<char>, Seq<Seq<char>>)| replay_call(e, programs, output_dir),
    )
}

/// Plans a selective batch.
pub fn plan_selected(programs: &Vec<Program>, output_dir: &Option<String>) -> (plan: Vec<Invocation>)
    ensures
        plan.deep_view() == selective_plan(programs.deep_view(), output_dir.deep_view()),
{
    let ghost dir = output_dir.deep_view();
    let ghost all = programs.deep_view();
    let ghost call = |p: ProgramView| selective_call(p, dir);
    let mut plan: Vec<Invocation> = Vec::new();
    let mut k: usize = 0;
    assert(plan.deep_view() =~= all.take(0).filter_map(call));
    while k < programs.len()
        invariant
            k <= programs.len(),
            all == programs.deep_view(),
            dir == output_dir.deep_view(),
            call == (|p: ProgramView| selective_call(p, dir)),
            plan.deep_view() == all.take(k as int).filter_map(call),
        decreases programs.len() - k,
    {
        proof {
            lemma_deep_view_take(*programs, k as int);
            all.lemma_filter_map_take_succ(call, k as int);
        }
        let names = programs[k].selected_features();
        if names.len() > 0 {
            let ghost before = plan;
            let invocation = Invocation {
                program: programs[k].name.clone(),
                directory: programs[k].path.clone(),
                output_dir: copy_optional(output_dir),
                features: Some(join_with(&names, ",")),
            };
            plan.push(invocation);
            proof {
                lemma_deep_view_push(before, plan, invocation);
                assert(call(all[k as int]) == Some(invocation@));
            }
        } else {
            assert(call(all[k as int]) == None::<InvocationView>);
        }
        k += 1;
    }
    assert(all.take(k as int) =~= all);
    plan
}

/// Plans a batch of everything. With `forced` each call asks for the one
/// fixed feature, without it for none.
pub fn plan_all(programs: &Vec<Program>, forced: bool, output_dir: &Option<String>) -> (plan: Vec<
    Invocation,
>)
    ensures
        plan.deep_view() == full_plan(programs.deep_view(), forced, output_dir.deep_view()),
{
    let ghost dir = output_dir.deep_view();
    let ghost all = programs.deep_view();
    let mut plan: Vec<Invocation> = Vec::new();
    let mut k: usize = 0;
    assert(plan.deep_view() =~= full_plan(all.take(0), forced, dir));
    while k < programs.len()
        invariant
            k <= programs.len(),
            all == programs.deep_view(),
            dir == output_dir.deep_view(),
            plan.deep_view() == full_plan(all.take(k as int), forced, dir),
        decreases programs.len() - k,
    {
        let ghost before = plan;
        let features = if forced {
            Some("prod".to_owned())
        } else {
            None
        };
        let invocation = Invocation {
            program: programs[k].name.clone(),
            directory: programs[k].path.clone(),
            output_dir: copy_optional(output_dir),
            features,
        };
        plan.push(invocation);
        proof {
            lemma_deep_view_push(before, plan, invocation);
            lemma_deep_view_take(*programs, k as int);
            assert(invocation@ == full_call(all[k as int], forced, dir));
            assert(full_plan(all.take(k + 1), forced, dir) =~= full_plan(
                all.take(k as int),
                forced,
                dir,
            ).push(full_call(all[k as int], forced, dir)));
        }
        k += 1;
    }
    assert(all.take(k as int) =~= all);
    plan
}

/// Plans the replay of a preset. The programs serve only to find the
/// directory of each entry; what is selected in them plays no part.
pub fn plan_preset(preset: &Preset, programs: &Vec<Program>, output_dir: &Option<String>) -> (plan:
    Vec<Invocation>)
    ensures
        plan.deep_view() == replay_plan(preset@, programs.deep_view(), output_dir.deep_view()),
{
    let ghost dir = output_dir.deep_view();
    let ghost known = programs.deep_view();
    let ghost entries = preset.programs.deep_view();
    let ghost call = |e: (Seq<char>, Seq<Seq<char>>)| replay_call(e, known, dir);
    let mut plan: Vec<Invocation> = Vec::new();
    let mut k: usize = 0;
    assert(plan.deep_view() =~= entries.take(0).filter_map(call));
    while k < preset.programs.len()
        invariant
            k <= preset.programs.len(),
            known == programs.deep_view(),
            entries == preset.programs.deep_view(),
            dir == output_dir.deep_view(),
            call == (|e: (Seq<char>, Seq<Seq<char>>)| replay_call(e, known, dir)),
            plan.deep_view() == entries.take(k as int).filter_map(call),
        decreases preset.programs.len() - k,
    {
        proof {
            lemma_deep_view_take(preset.programs, k as int);
            entries.lemma_filter_map_take_succ(call, k as int);
        }
        match find_program(programs, &preset.programs[k].0) {
            Some(j) => {
                let ghost before = plan;
                let invocation = Invocation {
                    program: preset.programs[k].0.clone(),
                    directory: programs[j].path.clone(),
                    output_dir: copy_optional(output_dir),
                    features: Some(join_with(&preset.programs[k].1, ",")),
                };
                plan.push(invocation);
                proof {
                    lemma_deep_view_push(before, plan, invocation);
                    assert(call(entries[k as int]) == Some(invocation@));
                }
            },
            None => {
                assert(call(entries[k as int]) == None::<InvocationView>);
            },
        }
        k += 1;
    }
    assert(entries.take(k as int) =~= entries);
    plan
}

} // verus!
