use equation_processor::advance;
use equation_processor::batch_plan;
use equation_processor::detect_file_type;
use equation_processor::initial_state;
use equation_processor::parse_yes_no;
use equation_processor::render_action;
use equation_processor::Equation;
use equation_processor::Filetype;
use equation_processor::RenderAction;
use equation_processor::RenderError;
use equation_processor::RenderState;
use equation_processor::StepOutcome;

#[test]
fn test_sanitize_replaces_unsafe_characters() {
    assert_eq!(Equation::sanitize_filename("Hello World!"), "Hello_World_");
    assert_eq!(Equation::sanitize_filename("x=y"), "x_y");
    assert_eq!(Equation::sanitize_filename("keep.this_one9"), "keep.this_one9");
    assert_eq!(Equation::sanitize_filename(""), "default_equation");
}

#[test]
fn test_sanitize_idempotent_examples() {
    for raw in ["a b!c", "", "default_equation", "x/y\\z", "Ω = 1"] {
        let once = Equation::sanitize_filename(raw);
        let twice = Equation::sanitize_filename(&once);
        assert_eq!(once, twice);
    }
    assert_eq!(Equation::sanitize_filename("a b!c"), "a_b_c");
}

#[test]
fn test_detect_by_extension() {
    assert!(matches!(detect_file_type("a.csv"), Filetype::Csv));
    assert!(matches!(detect_file_type("dir/sub/b.csv"), Filetype::Csv));
    assert!(matches!(detect_file_type("x.md"), Filetype::Markdown));
    assert!(matches!(detect_file_type("x.markdown"), Filetype::Markdown));
    assert!(matches!(detect_file_type("x.txt"), Filetype::Unknown));
    assert!(matches!(detect_file_type("noext"), Filetype::Unknown));
    assert!(matches!(detect_file_type(""), Filetype::Unknown));
}

#[test]
fn test_detect_is_case_sensitive() {
    assert!(matches!(detect_file_type("a.CSV"), Filetype::Unknown));
    assert!(matches!(detect_file_type("a.Md"), Filetype::Unknown));
}

#[test]
fn test_detect_same_extension_same_classification() {
    // The classification depends on the extension alone.
    for (a, b) in [("x.csv", "some/long/path/y.csv"), ("a.md", "b.md"), ("p.txt", "q.txt")] {
        let ta = detect_file_type(a);
        let tb = detect_file_type(b);
        assert!(matches!(
            (ta, tb),
            (Filetype::Csv, Filetype::Csv)
                | (Filetype::Markdown, Filetype::Markdown)
                | (Filetype::Unknown, Filetype::Unknown)
        ));
    }
}

#[test]
fn test_detect_edge_paths() {
    assert!(matches!(detect_file_type(".csv"), Filetype::Unknown));
    assert!(matches!(detect_file_type("dir/.csv"), Filetype::Unknown));
    assert!(matches!(detect_file_type("foo."), Filetype::Unknown));
    assert!(matches!(detect_file_type("archive.tar.gz"), Filetype::Unknown));
    assert!(matches!(detect_file_type("a.b/c"), Filetype::Unknown));
    assert!(matches!(detect_file_type("v1.2/eqs.csv"), Filetype::Csv));
}

#[test]
fn test_generate_latex_exact_document() {
    let eq = Equation::new(true, "e", "x");
    let expected = "\\documentclass[border=1pt]{standalone}\n\\usepackage{amsmath}\n\\usepackage{xfrac}\n\\usepackage{gfsneohellenicot}\n\\usepackage{xcolor}\n\\definecolor{equationcolor}{HTML}{FF0000}\n\\begin{document}\n\\setbox0\\hbox{\\Large \\textcolor{equationcolor}{$x$}}\n\\dimen0=12mm\n\\ifdim\\ht0<\\dimen0 \\ht0=\\dimen0 \\fi\n\\ifdim\\dp0<5mm \\dp0=5mm \\fi\n\\box0\n\\end{document}";
    assert_eq!(eq.generate_latex("#FF0000"), expected);
    assert_eq!(eq.generate_latex("FF0000"), expected);
    assert_eq!(eq.generate_latex("##FF0000"), expected);
}

#[test]
fn test_inactive_record_renders_nothing() {
    let eq = Equation::new(false, "quiet", "x");
    let s = initial_state(&eq);
    assert_eq!(s, RenderState::Done);
    assert!(render_action(&eq, "out", "#000000", s).is_none());
    for o in [StepOutcome::Success, StepOutcome::IoError, StepOutcome::ToolFailure] {
        assert_eq!(advance(true, RenderState::Done, o), RenderState::Done);
        assert_eq!(advance(false, RenderState::Done, o), RenderState::Done);
    }
}

#[test]
fn test_render_state_flow_success() {
    let eq = Equation::new(true, "e", "x");
    let s0 = initial_state(&eq);
    assert_eq!(s0, RenderState::NeedDir);
    let s1 = advance(false, s0, StepOutcome::Success);
    assert_eq!(s1, RenderState::NeedTex);
    let s2 = advance(false, s1, StepOutcome::Success);
    assert_eq!(s2, RenderState::NeedCompile);
    let s3 = advance(false, s2, StepOutcome::Success);
    assert_eq!(s3, RenderState::NeedConvert);
    assert_eq!(advance(false, s3, StepOutcome::Success), RenderState::Done);
    let s4 = advance(true, s3, StepOutcome::Success);
    assert_eq!(s4, RenderState::NeedCleanup);
    assert_eq!(advance(true, s4, StepOutcome::Success), RenderState::Done);
    assert_eq!(advance(true, s4, StepOutcome::IoError), RenderState::Done);
}

#[test]
fn test_render_state_failures() {
    assert_eq!(
        advance(false, RenderState::NeedDir, StepOutcome::IoError),
        RenderState::Failed(RenderError::Io)
    );
    assert_eq!(
        advance(false, RenderState::NeedTex, StepOutcome::IoError),
        RenderState::Failed(RenderError::Io)
    );
    assert_eq!(
        advance(false, RenderState::NeedCompile, StepOutcome::ToolFailure),
        RenderState::Failed(RenderError::ExternalTool)
    );
    assert_eq!(
        advance(false, RenderState::NeedCompile, StepOutcome::IoError),
        RenderState::Failed(RenderError::ExternalTool)
    );
    assert_eq!(
        advance(false, RenderState::NeedConvert, StepOutcome::ToolFailure),
        RenderState::Failed(RenderError::ExternalTool)
    );
    let failed = RenderState::Failed(RenderError::Io);
    assert_eq!(advance(false, failed, StepOutcome::Success), failed);
}

#[test]
fn test_render_actions_name_the_paths() {
    let eq = Equation::new(true, "e", "x");
    match render_action(&eq, "out", "#000000", RenderState::NeedDir) {
        Some(RenderAction::CreateDir { path }) => assert_eq!(path, "out"),
        _ => panic!("expected the directory action"),
    }
    match render_action(&eq, "out", "#000000", RenderState::NeedTex) {
        Some(RenderAction::WriteFile { path, contents }) => {
            assert_eq!(path, "out/e.tex");
            assert_eq!(contents, eq.generate_latex("#000000"));
        }
        _ => panic!("expected the write action"),
    }
    match render_action(&eq, "out", "#000000", RenderState::NeedCompile) {
        Some(RenderAction::RunCompiler { tex_path, out_dir }) => {
            assert_eq!(tex_path, "out/e.tex");
            assert_eq!(out_dir, "out");
        }
        _ => panic!("expected the compile action"),
    }
    match render_action(&eq, "out", "#000000", RenderState::NeedConvert) {
        Some(RenderAction::RunConverter { pdf_path, svg_path }) => {
            assert_eq!(pdf_path, "out/e.pdf");
            assert_eq!(svg_path, "out/e.svg");
        }
        _ => panic!("expected the convert action"),
    }
    match render_action(&eq, "out", "#000000", RenderState::NeedCleanup) {
        Some(RenderAction::RemoveFiles { tex_path, pdf_path }) => {
            assert_eq!(tex_path, "out/e.tex");
            assert_eq!(pdf_path, "out/e.pdf");
        }
        _ => panic!("expected the cleanup action"),
    }
    assert!(render_action(&eq, "out", "#000000", RenderState::Failed(RenderError::Io)).is_none());
}

#[test]
fn test_batch_plan_keeps_order_and_filters() {
    let equations = vec![
        Equation::new(true, "a", "1"),
        Equation::new(false, "b", "2"),
        Equation::new(true, "c", "3"),
        Equation::new(false, "d", "4"),
    ];
    assert_eq!(batch_plan(&equations), vec![0, 2]);
}

#[test]
fn test_empty_active_set_plans_nothing() {
    let none_active = vec![Equation::new(false, "a", "1"), Equation::new(false, "b", "2")];
    assert_eq!(batch_plan(&none_active).len(), 0);
    let empty: Vec<Equation> = Vec::new();
    assert_eq!(batch_plan(&empty).len(), 0);
}

#[test]
fn test_parse_yes_no_answers() {
    assert_eq!(parse_yes_no("y"), Some(true));
    assert_eq!(parse_yes_no("YES"), Some(true));
    assert_eq!(parse_yes_no(" Yes \n"), Some(true));
    assert_eq!(parse_yes_no("n"), Some(false));
    assert_eq!(parse_yes_no(" No "), Some(false));
    assert_eq!(parse_yes_no("maybe"), None);
    assert_eq!(parse_yes_no(""), None);
}
