//! Render orchestration: the per-record pipeline is a small state machine
//! whose non-terminal stages each name the one blocking action the runner
//! must perform (create the output directory, write the typesetting source,
//! run the compiler, run the converter, remove intermediates), and whose
//! transitions decide what follows each outcome. The batch plan lists the
//! active records in order; the runner renders them strictly sequentially
//! and stops at the first failure.

use vstd::prelude::*;
use vstd::string::*;

use crate::equation::{spec_latex_source, Equation, EquationModel};

verus! {

/// Why a render stopped.
#[derive(Debug, Clone, Copy, PartialEq, Eq, Structural)]
pub enum RenderError {
    /// A file or directory operation failed.
    Io,
    /// The compiler or the converter could not be run, or reported a
    /// non-zero exit status.
    ExternalTool,
}

/// The stage a single record's render is in. Each `Need` stage names the
/// action the runner must perform next; `Done` and `Failed` are terminal.
#[derive(Debug, Clone, Copy, PartialEq, Eq, Structural)]
pub enum RenderState {
    /// The output directory must be created (recursively; idempotent).
    NeedDir,
    /// The typesetting source must be written to `{name}.tex`.
    NeedTex,
    /// The external compiler must be run on the written source file.
    NeedCompile,
    /// The converter must turn `{name}.pdf` into `{name}.svg`.
    NeedConvert,
    /// The intermediate `.tex` and `.pdf` files must be removed,
    /// best-effort.
    NeedCleanup,
    /// The render finished successfully.
    Done,
    /// The render failed and the batch runner must stop.
    Failed(RenderError),
}

/// What the runner reports after performing one action.
#[derive(Debug, Clone, Copy, PartialEq, Eq, Structural)]
pub enum StepOutcome {
    /// The action succeeded; for the external tools, an exit status of zero.
    Success,
    /// A file operation failed, or an external process could not be spawned.
    IoError,
    /// An external tool ran and reported a non-zero exit status.
    ToolFailure,
}

/// The first stage of a record's render: an inactive record is done before
/// anything happens, an active one starts by ensuring the output directory.
pub open spec fn spec_initial_state(active: bool) -> RenderState {
    if active {
        RenderState::NeedDir
    } else {
        RenderState::Done
    }
}

/// The stage that follows performing the action of `s` with outcome `o`.
/// File-stage failures are I/O failures; a compiler or converter that cannot
/// be spawned or exits non-zero is an external-tool failure; cleanup
/// failures are ignored; terminal stages stay where they are.
pub open spec fn spec_advance(delete_intermediates: bool, s: RenderState, o: StepOutcome) -> RenderState {
    match s {
        RenderState::NeedDir => match o {
            StepOutcome::Success => RenderState::NeedTex,
            _ => RenderState::Failed(RenderError::Io),
        },
        RenderState::NeedTex => match o {
            StepOutcome::Success => RenderState::NeedCompile,
            _ => RenderState::Failed(RenderError::Io),
        },
        RenderState::NeedCompile => match o {
            StepOutcome::Success => RenderState::NeedConvert,
            _ => RenderState::Failed(RenderError::ExternalTool),
        },
        RenderState::NeedConvert => match o {
            StepOutcome::Success => if delete_intermediates {
                RenderState::NeedCleanup
            } else {
                RenderState::Done
            },
            _ => RenderState::Failed(RenderError::ExternalTool),
        },
        RenderState::NeedCleanup => RenderState::Done,
        RenderState::Done => RenderState::Done,
        RenderState::Failed(e) => RenderState::Failed(e),
    }
}

/// The first stage of a record's render.
pub fn initial_state(eq: &Equation) -> (s: RenderState)
    ensures
        s == spec_initial_state(eq@.active),
{
    if eq.active {
        RenderState::NeedDir
    } else {
        RenderState::Done
    }
}

/// The stage that follows performing the action of `s` with outcome `o`.
pub fn advance(delete_intermediates: bool, s: RenderState, o: StepOutcome) -> (r: RenderState)
    ensures
        r == spec_advance(delete_intermediates, s, o),
{
    match s {
        RenderState::NeedDir => match o {
            StepOutcome::Success => RenderState::NeedTex,
            _ => RenderState::Failed(RenderError::Io),
        },
        RenderState::NeedTex => match o {
            StepOutcome::Success => RenderState::NeedCompile,
            _ => RenderState::Failed(RenderError::Io),
        },
        RenderState::NeedCompile => match o {
            StepOutcome::Success => RenderState::NeedConvert,
            _ => RenderState::Failed(RenderError::ExternalTool),
        },
        RenderState::NeedConvert => match o {
            StepOutcome::Success => if delete_intermediates {
                RenderState::NeedCleanup
            } else {
                RenderState::Done
            },
            _ => RenderState::Failed(RenderError::ExternalTool),
        },
        RenderState::NeedCleanup => RenderState::Done,
        RenderState::Done => RenderState::Done,
        RenderState::Failed(e) => RenderState::Failed(e),
    }
}

/// One blocking action of the render pipeline, with every path and the file
/// contents spelled out for the runner.
#[derive(Debug)]
pub enum RenderAction {
    /// Create the directory, recursively; succeeding when it exists.
    CreateDir { path: String },
    /// Write `contents` to the file at `path`.
    WriteFile { path: String, contents: String },
    /// Run the external compiler on `tex_path` with the output directory
    /// `out_dir`, its output streams suppressed.
    RunCompiler { tex_path: String, out_dir: String },
    /// Run the PDF-to-SVG converter from `pdf_path` to `svg_path`.
    RunConverter { pdf_path: String, svg_path: String },
    /// Remove both files, ignoring failures.
    RemoveFiles { tex_path: String, pdf_path: String },
}

/// The path of an output artifact: the directory, a separator, the record
/// name and the extension.
pub open spec fn spec_artifact_path(dir: Seq<char>, name: Seq<char>, ext: Seq<char>) -> Seq<char> {
    dir + "/"@ + name + ext
}

fn artifact_path(dir: &str, name: &str, ext: &str) -> (p: String)
    ensures
        p@ == spec_artifact_path(dir@, name@, ext@),
{
    let mut p = dir.to_owned();
    p.append("/");
    p.append(name);
    p.append(ext);
    p
}

/// The action the runner must perform for `eq` in stage `s`: none for the
/// terminal stages, and for each `Need` stage the action it names, on the
/// record's own `.tex`, `.pdf` and `.svg` paths inside `output_dir`, with
/// the typesetting source generated from the record's body and `color`.
pub fn render_action(eq: &Equation, output_dir: &str, color: &str, s: RenderState) -> (a: Option<
    RenderAction,
>)
    ensures
        match s {
            RenderState::NeedDir => a matches Some(RenderAction::CreateDir { path }) && path@
                == output_dir@,
            RenderState::NeedTex => a matches Some(RenderAction::WriteFile { path, contents })
                && path@ == spec_artifact_path(output_dir@, eq@.name, ".tex"@) && contents@
                == spec_latex_source(color@, eq@.body),
            RenderState::NeedCompile => a matches Some(RenderAction::RunCompiler {
                tex_path,
                out_dir,
            }) && tex_path@ == spec_artifact_path(output_dir@, eq@.name, ".tex"@) && out_dir@
                == output_dir@,
            RenderState::NeedConvert => a matches Some(RenderAction::RunConverter {
                pdf_path,
                svg_path,
            }) && pdf_path@ == spec_artifact_path(output_dir@, eq@.name, ".pdf"@) && svg_path@
                == spec_artifact_path(output_dir@, eq@.name, ".svg"@),
            RenderState::NeedCleanup => a matches Some(RenderAction::RemoveFiles {
                tex_path,
                pdf_path,
            }) && tex_path@ == spec_artifact_path(output_dir@, eq@.name, ".tex"@) && pdf_path@
                == spec_artifact_path(output_dir@, eq@.name, ".pdf"@),
            RenderState::Done => a is None,
            RenderState::Failed(_) => a is None,
        },
{
    match s {
        RenderState::NeedDir => Some(RenderAction::CreateDir { path: output_dir.to_owned() }),
        RenderState::NeedTex => Some(
            RenderAction::WriteFile {
                path: artifact_path(output_dir, eq.name.as_str(), ".tex"),
                contents: eq.generate_latex(color),
            },
        ),
        RenderState::NeedCompile => Some(
            RenderAction::RunCompiler {
                tex_path: artifact_path(output_dir, eq.name.as_str(), ".tex"),
                out_dir: output_dir.to_owned(),
            },
        ),
        RenderState::NeedConvert => Some(
            RenderAction::RunConverter {
                pdf_path: artifact_path(output_dir, eq.name.as_str(), ".pdf"),
                svg_path: artifact_path(output_dir, eq.name.as_str(), ".svg"),
            },
        ),
        RenderState::NeedCleanup => Some(
            RenderAction::RemoveFiles {
                tex_path: artifact_path(output_dir, eq.name.as_str(), ".tex"),
                pdf_path: artifact_path(output_dir, eq.name.as_str(), ".pdf"),
            },
        ),
        RenderState::Done => None,
        RenderState::Failed(_) => None,
    }
}

/// An inactive record renders as an immediate no-op success: its first stage
/// is already `Done`, every later stage stays `Done`, and the terminal stage
/// demands no action, so nothing is written and no tool is invoked.
pub proof fn lemma_inactive_render_is_noop(delete_intermediates: bool, o: StepOutcome)
    ensures
        spec_initial_state(false) == RenderState::Done,
        spec_advance(delete_intermediates, RenderState::Done, o) == RenderState::Done,
{
}

/// The positions at or after `i` of the active records, in order.
pub open spec fn active_indices_from(models: Seq<EquationModel>, i: int) -> Seq<int>
    decreases models.len() - i,
{
    if !(0 <= i < models.len()) {
        Seq::empty()
    } else if models[i].active {
        seq![i] + active_indices_from(models, i + 1)
    } else {
        active_indices_from(models, i + 1)
    }
}

/// The batch plan: the positions of the records to render, in list order.
/// The runner renders them strictly sequentially and stops at the first
/// failure.
pub fn batch_plan(equations: &Vec<Equation>) -> (plan: Vec<usize>)
    ensures
        plan@.map_values(|u: usize| u as int) == active_indices_from(
            equations@.map_values(|e: Equation| e@),
            0,
        ),
        forall|k: int| 0 <= k < plan@.len() ==> #[trigger] plan@[k] < equations@.len(),
{
    let ghost models = equations@.map_values(|e: Equation| e@);
    let mut plan: Vec<usize> = Vec::new();
    let mut i: usize = 0;
    proof {
        assert(plan@.map_values(|u: usize| u as int) =~= Seq::<int>::empty());
        assert(Seq::<int>::empty() + active_indices_from(models, 0) =~= active_indices_from(
            models,
            0,
        ));
    }
    while i < equations.len()
        invariant
            i <= equations@.len(),
            models == equations@.map_values(|e: Equation| e@),
            forall|k: int| 0 <= k < plan@.len() ==> #[trigger] plan@[k] < equations@.len(),
            active_indices_from(models, 0) == plan@.map_values(|u: usize| u as int)
                + active_indices_from(models, i as int),
        decreases equations@.len() - i,
    {
        if equations[i].active {
            let ghost old_plan = plan@;
            plan.push(i);
            proof {
                assert(plan@.map_values(|u: usize| u as int) =~= old_plan.map_values(
                    |u: usize| u as int,
                ) + seq![i as int]);
            }
        }
        i = i + 1;
    }
    proof {
        assert(active_indices_from(models, i as int) == Seq::<int>::empty());
        assert(plan@.map_values(|u: usize| u as int) =~= active_indices_from(models, 0));
    }
    plan
}

proof fn lemma_no_active_from(models: Seq<EquationModel>, i: int)
    requires
        forall|j: int| 0 <= j < models.len() ==> !(#[trigger] models[j].active),
    ensures
        active_indices_from(models, i).len() == 0,
    decreases models.len() - i,
{
    if 0 <= i < models.len() {
        lemma_no_active_from(models, i + 1);
    }
}

/// A batch with no active record is an immediate success with no external
/// tool invoked: its plan is empty, so the runner performs nothing.
pub proof fn lemma_empty_active_set(models: Seq<EquationModel>)
    requires
        forall|j: int| 0 <= j < models.len() ==> !(#[trigger] models[j].active),
    ensures
        active_indices_from(models, 0).len() == 0,
{
    lemma_no_active_from(models, 0);
}

} // verus!
